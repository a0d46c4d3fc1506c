//! Laws of the query language: what holds of every query and every document.

use crate::ast::{CompOp, ExprView, JsonPathView, LiteralView, SegmentView, SelectorView};
use crate::eval::{all_indices, apply_segment, apply_segment_each, children_forest, compare,
    compare_present, ordered,
    descendants, evaluate_spec, kept, lemma_slice_indices_in_range, length_of, pick, select,
    select_each, select_list, slice_indices, slice_run, walk, Outcome};
use crate::json::{find_member, JsonView, MemberView};
use crate::number::{lemma_double_limit, Decimal, DOUBLE_LIMIT_LENGTH};
use crate::parser::{is_singular_selector, singular_segments};
use vstd::prelude::*;

verus! {

/// The query `$[selector]`: one child segment with one selector.
pub open spec fn single_selector_query(selector: SelectorView) -> JsonPathView {
    JsonPathView { segments: seq![SegmentView::Child(seq![selector])] }
}

/// The query `$..[selector]`: one descendant segment with one selector.
pub open spec fn descendant_query(selector: SelectorView) -> JsonPathView {
    JsonPathView { segments: seq![SegmentView::Descendant(seq![selector])] }
}

/// A list of one selector selects what the selector selects.
pub proof fn lemma_select_list_single(selector: SelectorView, node: JsonView, root: JsonView)
    ensures
        select_list(seq![selector], 1, node, root) == pick(node, select(selector, node, root)),
{
    let selectors = seq![selector];
    assert(select_list(selectors, 0, node, root) =~= Seq::<JsonView>::empty());
    assert(select_list(selectors, 1, node, root) == select_list(selectors, 0, node, root) + pick(
        node,
        select(selectors[0], node, root),
    ));
    assert(Seq::<JsonView>::empty() + pick(node, select(selector, node, root)) =~= pick(
        node,
        select(selector, node, root),
    ));
}

/// A query of one segment selects what the segment selects from the root.
pub proof fn lemma_single_segment(segment: SegmentView, root: JsonView)
    ensures
        evaluate_spec(JsonPathView { segments: seq![segment] }, root) == apply_segment(
            segment,
            root,
            root,
        ),
{
    let segments = seq![segment];
    let start = walk(segments, 0, root, root);
    assert(start == seq![root]);
    assert(walk(segments, 1, root, root) == apply_segment_each(segments[0], start, 1, root));
    assert(apply_segment_each(segment, start, 0, root) =~= Seq::<JsonView>::empty());
    assert(apply_segment_each(segment, start, 1, root) == apply_segment_each(
        segment,
        start,
        0,
        root,
    ) + apply_segment(segment, start[0], root));
    assert(Seq::<JsonView>::empty() + apply_segment(segment, root, root) =~= apply_segment(
        segment,
        root,
        root,
    ));
}

/// The query `$[selector]` selects, among the children of the root, those
/// at the indices that the selector gives.
pub proof fn lemma_single_selector(selector: SelectorView, root: JsonView)
    ensures
        evaluate_spec(single_selector_query(selector), root) == pick(
            root,
            select(selector, root, root),
        ),
{
    lemma_single_segment(SegmentView::Child(seq![selector]), root);
    lemma_select_list_single(selector, root, root);
}

/// Of two outcomes with at most one value each, exactly one of `==` and `!=`
/// holds, also where one or both are absent.
pub proof fn law_comparison_total(left: Outcome, right: Outcome)
    requires
        left.is_singular(),
        right.is_singular(),
    ensures
        compare(left, CompOp::Eq, right) != compare(left, CompOp::Ne, right),
{
}

/// Only numbers and strings are ordered: on two values of which one is
/// neither, or which are one of each, `<`, `>`, `<=` and `>=` are all false,
/// also where the two values are equal.
pub proof fn law_order_needs_numbers_or_strings(left: JsonView, op: CompOp, right: JsonView)
    requires
        !ordered(left, right),
        op != CompOp::Eq,
        op != CompOp::Ne,
    ensures
        !compare_present(left, op, right),
        !compare(Outcome::Value(left), op, Outcome::Value(right)),
{
}

/// A numeric literal with more than 309 digits before its decimal point is
/// too large for a double and denotes `null`; one with fewer denotes itself.
/// Among those with 309, the digits decide, against
/// [`crate::number::double_limit_digits`].
pub proof fn law_literals_beyond_doubles_are_null(n: Decimal)
    requires
        n.wf(),
        !n.is_zero(),
    ensures
        n.top() > DOUBLE_LIMIT_LENGTH ==> LiteralView::Number(n).value() == JsonView::Null,
        n.top() < DOUBLE_LIMIT_LENGTH ==> LiteralView::Number(n).value() == JsonView::Number(n),
        LiteralView::Number(Decimal::zero()).value() == JsonView::Number(Decimal::zero()),
{
    lemma_double_limit();
}

/// `$[*]` yields the elements of an array in index order, and the member
/// values of an object in insertion order.
pub proof fn law_wildcard_children(root: JsonView)
    ensures
        evaluate_spec(single_selector_query(SelectorView::Wildcard), root) == root.children(),
        root matches JsonView::Array(items) ==> evaluate_spec(
            single_selector_query(SelectorView::Wildcard),
            root,
        ) == items,
        root matches JsonView::Object(members) ==> evaluate_spec(
            single_selector_query(SelectorView::Wildcard),
            root,
        ) == Seq::new(members.len(), |i: int| members[i].value),
{
    lemma_single_selector(SelectorView::Wildcard, root);
    assert(pick(root, all_indices(root.children().len())) =~= root.children());
}

/// The indices `i, i + 1, ..., len - 1`.
proof fn lemma_ascending_run(i: int, len: nat)
    requires
        0 <= i <= len,
    ensures
        slice_run(i, len as int, 1, len) == Seq::new((len - i) as nat, |k: int| i + k),
    decreases len - i,
{
    if i < len {
        lemma_ascending_run(i + 1, len);
        assert(seq![i] + Seq::new((len - i - 1) as nat, |k: int| i + 1 + k) =~= Seq::new(
            (len - i) as nat,
            |k: int| i + k,
        ));
    } else {
        assert(slice_run(i, len as int, 1, len) =~= Seq::new((len - i) as nat, |k: int| i + k));
    }
}

/// The indices `i, i - 1, ..., 0`.
proof fn lemma_descending_run(i: int, len: nat)
    requires
        -1 <= i < len,
    ensures
        slice_run(i, -1, -1, len) == Seq::new((i + 1) as nat, |k: int| i - k),
    decreases i + 1,
{
    if i >= 0 {
        lemma_descending_run(i - 1, len);
        assert(seq![i] + Seq::new(i as nat, |k: int| i - 1 - k) =~= Seq::new(
            (i + 1) as nat,
            |k: int| i - k,
        ));
    } else {
        assert(slice_run(i, -1, -1, len) =~= Seq::new((i + 1) as nat, |k: int| i - k));
    }
}

/// On an array, `$[::1]` selects what `$[*]` selects.
pub proof fn law_slice_step_one(items: Seq<JsonView>)
    ensures
        evaluate_spec(
            single_selector_query(SelectorView::Slice { start: None, end: None, step: Some(1) }),
            JsonView::Array(items),
        ) == evaluate_spec(
            single_selector_query(SelectorView::Wildcard),
            JsonView::Array(items),
        ),
{
    let root = JsonView::Array(items);
    let slice = SelectorView::Slice { start: None, end: None, step: Some(1) };
    lemma_single_selector(slice, root);
    law_wildcard_children(root);
    lemma_ascending_run(0, items.len());
    assert(slice_indices(None, None, Some(1), items.len()) =~= all_indices(items.len()));
    assert(pick(root, all_indices(items.len())) =~= items);
}

/// On an array of `n` elements, `$[0:n]` selects what `$[*]` selects.
pub proof fn law_slice_whole(items: Seq<JsonView>)
    ensures
        evaluate_spec(
            single_selector_query(
                SelectorView::Slice { start: Some(0), end: Some(items.len() as int), step: None },
            ),
            JsonView::Array(items),
        ) == evaluate_spec(
            single_selector_query(SelectorView::Wildcard),
            JsonView::Array(items),
        ),
{
    let root = JsonView::Array(items);
    let slice = SelectorView::Slice { start: Some(0), end: Some(items.len() as int), step: None };
    lemma_single_selector(slice, root);
    law_wildcard_children(root);
    lemma_ascending_run(0, items.len());
    assert(slice_indices(Some(0), Some(items.len() as int), None, items.len()) =~= all_indices(
        items.len(),
    ));
    assert(pick(root, all_indices(items.len())) =~= items);
}

/// On an array, `$[::-1]` yields the elements in reverse.
pub proof fn law_slice_reverse(items: Seq<JsonView>)
    ensures
        evaluate_spec(
            single_selector_query(SelectorView::Slice { start: None, end: None, step: Some(-1) }),
            JsonView::Array(items),
        ) == items.reverse(),
{
    let root = JsonView::Array(items);
    let slice = SelectorView::Slice { start: None, end: None, step: Some(-1) };
    lemma_single_selector(slice, root);
    lemma_descending_run(items.len() - 1, items.len());
    let indices = slice_indices(None, None, Some(-1), items.len());
    assert(indices =~= Seq::new(items.len(), |k: int| items.len() - 1 - k));
    assert(pick(root, indices) =~= items.reverse());
}

/// `$..[selector]` yields what the selector selects from each descendant of
/// the root, the root included, the descendants taken in pre-order.
pub proof fn law_descendant_segment(selector: SelectorView, root: JsonView)
    ensures
        evaluate_spec(descendant_query(selector), root) == select_each(
            seq![selector],
            descendants(root),
            descendants(root).len(),
            root,
        ),
{
    lemma_single_segment(SegmentView::Descendant(seq![selector]), root);
}

/// The function `length` counts the characters of a string, not its bytes.
pub proof fn law_length_counts_characters(s: Seq<char>)
    ensures
        length_of(Outcome::Value(JsonView::String(s))) == Outcome::Value(
            JsonView::Number(Decimal::from_nat(s.len())),
        ),
        length_of(Outcome::NodeList(seq![JsonView::String(s)])) == Outcome::Value(
            JsonView::Number(Decimal::from_nat(s.len())),
        ),
{
}

/// The node at the position `position` of the document `root`: the root for
/// the empty position, else the child, at the last index of the position,
/// of the node at the position before.
pub open spec fn node_at(root: JsonView, position: Seq<int>) -> Option<JsonView>
    decreases position.len(),
{
    if position.len() == 0 {
        Some(root)
    } else {
        match node_at(root, position.drop_last()) {
            Some(parent) => if 0 <= position.last() < parent.children().len() {
                Some(parent.children()[position.last()])
            } else {
                None
            },
            None => None,
        }
    }
}

/// `node` stands at some position of the document `root`.
pub open spec fn is_node_of(node: JsonView, root: JsonView) -> bool {
    exists|position: Seq<int>| node_at(root, position) == Some(node)
}

/// Every node of the list stands at some position of the document.
pub open spec fn all_nodes_of(nodes: Seq<JsonView>, root: JsonView) -> bool {
    forall|k: int| 0 <= k < nodes.len() ==> is_node_of(#[trigger] nodes[k], root)
}

/// The children of a node of the document are nodes of the document.
pub proof fn lemma_child_is_node(node: JsonView, i: int, root: JsonView)
    requires
        is_node_of(node, root),
        0 <= i < node.children().len(),
    ensures
        is_node_of(node.children()[i], root),
{
    let position = choose|position: Seq<int>| node_at(root, position) == Some(node);
    let longer = position.push(i);
    assert(longer.drop_last() =~= position);
    assert(node_at(root, longer) == Some(node.children()[i]));
}

proof fn lemma_find_member_in_range(members: Seq<MemberView>, name: Seq<char>)
    ensures
        find_member(members, name) matches Some(i) ==> 0 <= i < members.len(),
    decreases members.len(),
{
    if members.len() > 0 {
        lemma_find_member_in_range(members.drop_last(), name);
    }
}

proof fn lemma_kept_in_range(expr: ExprView, node: JsonView, k: nat, root: JsonView)
    requires
        k <= node.children().len(),
    ensures
        forall|j: int|
            0 <= j < kept(expr, node, k, root).len() ==> 0 <= #[trigger] kept(
                expr,
                node,
                k,
                root,
            )[j] < k,
    decreases k,
{
    if k > 0 {
        lemma_kept_in_range(expr, node, (k - 1) as nat, root);
        let before = kept(expr, node, (k - 1) as nat, root);
        let now = kept(expr, node, k, root);
        assert(now == before || now == before.push(k - 1));
        assert forall|j: int| 0 <= j < now.len() implies 0 <= #[trigger] now[j] < k by {
            if j < before.len() {
                assert(now[j] == before[j]);
            }
        }
    }
}

/// A selector selects among the children of the node.
pub proof fn lemma_select_in_range(selector: SelectorView, node: JsonView, root: JsonView)
    ensures
        forall|j: int|
            0 <= j < select(selector, node, root).len() ==> 0 <= #[trigger] select(
                selector,
                node,
                root,
            )[j] < node.children().len(),
{
    let indices = select(selector, node, root);
    let count = node.children().len();
    assert forall|j: int| 0 <= j < indices.len() implies 0 <= #[trigger] indices[j] < count by {
        match selector {
            SelectorView::Name(name) => {
                match node {
                    JsonView::Object(members) => {
                        lemma_find_member_in_range(members, name);
                    },
                    _ => {},
                }
            },
            SelectorView::Index(idx) => {},
            SelectorView::Wildcard => {},
            SelectorView::Slice { start, end, step } => {
                match node {
                    JsonView::Array(items) => {
                        lemma_slice_indices_in_range(start, end, step, items.len());
                        assert(indices == slice_indices(start, end, step, items.len()));
                    },
                    _ => {},
                }
            },
            SelectorView::Filter(expr) => {
                lemma_kept_in_range(*expr, node, count, root);
                assert(indices == kept(*expr, node, count, root));
            },
        }
    }
}

proof fn lemma_select_list_nodes(
    selectors: Seq<SelectorView>,
    k: nat,
    node: JsonView,
    root: JsonView,
    document: JsonView,
)
    requires
        is_node_of(node, document),
    ensures
        all_nodes_of(select_list(selectors, k, node, root), document),
    decreases k,
{
    if k == 0 || k > selectors.len() {
    } else {
        lemma_select_list_nodes(selectors, (k - 1) as nat, node, root, document);
        let before = select_list(selectors, (k - 1) as nat, node, root);
        let indices = select(selectors[k - 1], node, root);
        let picked = pick(node, indices);
        lemma_select_in_range(selectors[k - 1], node, root);
        assert forall|j: int| 0 <= j < picked.len() implies is_node_of(
            #[trigger] picked[j],
            document,
        ) by {
            lemma_child_is_node(node, indices[j], document);
        }
        let all = before + picked;
        assert forall|j: int| 0 <= j < all.len() implies is_node_of(
            #[trigger] all[j],
            document,
        ) by {
            if j < before.len() {
                assert(all[j] == before[j]);
            } else {
                assert(all[j] == picked[j - before.len()]);
            }
        }
    }
}

proof fn lemma_concat_nodes(a: Seq<JsonView>, b: Seq<JsonView>, document: JsonView)
    requires
        all_nodes_of(a, document),
        all_nodes_of(b, document),
    ensures
        all_nodes_of(a + b, document),
{
    let all = a + b;
    assert forall|j: int| 0 <= j < all.len() implies is_node_of(#[trigger] all[j], document) by {
        if j < a.len() {
            assert(all[j] == a[j]);
        } else {
            assert(all[j] == b[j - a.len()]);
        }
    }
}

proof fn lemma_select_each_nodes(
    selectors: Seq<SelectorView>,
    nodes: Seq<JsonView>,
    k: nat,
    root: JsonView,
    document: JsonView,
)
    requires
        all_nodes_of(nodes, document),
    ensures
        all_nodes_of(select_each(selectors, nodes, k, root), document),
    decreases k,
{
    if k == 0 || k > nodes.len() {
    } else {
        lemma_select_each_nodes(selectors, nodes, (k - 1) as nat, root, document);
        assert(is_node_of(nodes[k - 1], document));
        lemma_select_list_nodes(selectors, selectors.len(), nodes[k - 1], root, document);
        lemma_concat_nodes(
            select_each(selectors, nodes, (k - 1) as nat, root),
            select_list(selectors, selectors.len(), nodes[k - 1], root),
            document,
        );
    }
}

proof fn lemma_children_forest_nodes(node: JsonView, k: nat, document: JsonView)
    requires
        is_node_of(node, document),
    ensures
        all_nodes_of(children_forest(node, k), document),
    decreases node, k,
{
    if k == 0 || k > node.children().len() {
    } else {
        lemma_children_forest_nodes(node, (k - 1) as nat, document);
        lemma_child_is_node(node, k - 1, document);
        lemma_descendants_nodes(node.children()[k - 1], document);
        lemma_concat_nodes(
            children_forest(node, (k - 1) as nat),
            descendants(node.children()[k - 1]),
            document,
        );
    }
}

/// The descendants of a node of the document are nodes of the document.
pub proof fn lemma_descendants_nodes(node: JsonView, document: JsonView)
    requires
        is_node_of(node, document),
    ensures
        all_nodes_of(descendants(node), document),
    decreases node, node.children().len() + 1,
{
    lemma_children_forest_nodes(node, node.children().len(), document);
    assert(all_nodes_of(seq![node], document));
    lemma_concat_nodes(seq![node], children_forest(node, node.children().len()), document);
}

proof fn lemma_apply_segment_each_nodes(
    segment: SegmentView,
    nodes: Seq<JsonView>,
    k: nat,
    root: JsonView,
    document: JsonView,
)
    requires
        all_nodes_of(nodes, document),
    ensures
        all_nodes_of(apply_segment_each(segment, nodes, k, root), document),
    decreases k,
{
    if k == 0 || k > nodes.len() {
    } else {
        lemma_apply_segment_each_nodes(segment, nodes, (k - 1) as nat, root, document);
        let node = nodes[k - 1];
        assert(is_node_of(node, document));
        match segment {
            SegmentView::Child(selectors) => {
                lemma_select_list_nodes(selectors, selectors.len(), node, root, document);
            },
            SegmentView::Descendant(selectors) => {
                lemma_descendants_nodes(node, document);
                lemma_select_each_nodes(
                    selectors,
                    descendants(node),
                    descendants(node).len(),
                    root,
                    document,
                );
            },
        }
        lemma_concat_nodes(
            apply_segment_each(segment, nodes, (k - 1) as nat, root),
            apply_segment(segment, node, root),
            document,
        );
    }
}

proof fn lemma_walk_nodes(
    segments: Seq<SegmentView>,
    k: nat,
    start: JsonView,
    root: JsonView,
    document: JsonView,
)
    requires
        is_node_of(start, document),
    ensures
        all_nodes_of(walk(segments, k, start, root), document),
    decreases k,
{
    if k == 0 || k > segments.len() {
        assert(all_nodes_of(seq![start], document));
    } else {
        lemma_walk_nodes(segments, (k - 1) as nat, start, root, document);
        let nodes = walk(segments, (k - 1) as nat, start, root);
        lemma_apply_segment_each_nodes(segments[k - 1], nodes, nodes.len(), root, document);
    }
}

/// Every node that a query selects stands at some position of the document:
/// a query yields subtrees of the document and nothing else.
pub proof fn law_results_are_nodes(path: JsonPathView, root: JsonView)
    ensures
        all_nodes_of(evaluate_spec(path, root), root),
{
    assert(node_at(root, Seq::<int>::empty()) == Some(root));
    lemma_walk_nodes(path.segments, path.segments.len(), root, root, root);
}

/// What the selectors select from each node of a list depends on the nodes
/// up to the last one taken only.
proof fn lemma_select_each_prefix(
    selectors: Seq<SelectorView>,
    a: Seq<JsonView>,
    b: Seq<JsonView>,
    k: nat,
    root: JsonView,
)
    requires
        k <= a.len(),
    ensures
        select_each(selectors, a + b, k, root) == select_each(selectors, a, k, root),
    decreases k,
{
    if k > 0 {
        lemma_select_each_prefix(selectors, a, b, (k - 1) as nat, root);
        assert((a + b)[k - 1] == a[k - 1]);
    }
}

/// From two lists one after the other, the selectors select what they
/// select from the first, then what they select from the second.
proof fn lemma_select_each_concat(
    selectors: Seq<SelectorView>,
    a: Seq<JsonView>,
    b: Seq<JsonView>,
    k: nat,
    root: JsonView,
)
    requires
        k <= b.len(),
    ensures
        select_each(selectors, a + b, a.len() + k, root) == select_each(
            selectors,
            a,
            a.len(),
            root,
        ) + select_each(selectors, b, k, root),
    decreases k,
{
    if k == 0 {
        lemma_select_each_prefix(selectors, a, b, a.len(), root);
        assert(select_each(selectors, a, a.len(), root) + Seq::<JsonView>::empty()
            =~= select_each(selectors, a, a.len(), root));
    } else {
        lemma_select_each_concat(selectors, a, b, (k - 1) as nat, root);
        assert((a + b)[a.len() + k - 1] == b[k - 1]);
        let first = select_each(selectors, a, a.len(), root);
        let second = select_each(selectors, b, (k - 1) as nat, root);
        let last = select_list(selectors, selectors.len(), b[k - 1], root);
        assert((first + second) + last =~= first + (second + last));
    }
}

/// The children of each node of the list, node after node: what `*` selects
/// from each.
pub open spec fn children_of_each(nodes: Seq<JsonView>, root: JsonView) -> Seq<JsonView> {
    select_each(seq![SelectorView::Wildcard], nodes, nodes.len(), root)
}

proof fn lemma_children_of_one(node: JsonView, root: JsonView)
    ensures
        children_of_each(seq![node], root) == node.children(),
{
    let wild = seq![SelectorView::Wildcard];
    let nodes = seq![node];
    lemma_select_list_single(SelectorView::Wildcard, node, root);
    assert(pick(node, all_indices(node.children().len())) =~= node.children());
    assert(select_each(wild, nodes, 0, root) =~= Seq::<JsonView>::empty());
    assert(select_each(wild, nodes, 1, root) == select_each(wild, nodes, 0, root) + select_list(
        wild,
        wild.len(),
        nodes[0],
        root,
    ));
    assert(Seq::<JsonView>::empty() + node.children() =~= node.children());
}

proof fn lemma_children_of_each_concat(a: Seq<JsonView>, b: Seq<JsonView>, root: JsonView)
    ensures
        children_of_each(a + b, root) == children_of_each(a, root) + children_of_each(b, root),
{
    lemma_select_each_concat(seq![SelectorView::Wildcard], a, b, b.len(), root);
}

/// The empty list holds nothing.
proof fn lemma_empty_multiset()
    ensures
        Seq::<JsonView>::empty().to_multiset() =~= vstd::multiset::Multiset::<JsonView>::empty(),
{
    broadcast use vstd::multiset::group_multiset_axioms;

    Seq::<JsonView>::empty().to_multiset_ensures();
    vstd::multiset::lemma_multiset_empty_len(Seq::<JsonView>::empty().to_multiset());
}

/// Among the subtrees of the first `k` children of a node, the children of
/// all nodes, with those `k` children, are all the nodes.
proof fn lemma_forest_children(node: JsonView, k: nat, root: JsonView)
    requires
        k <= node.children().len(),
    ensures
        node.children().take(k as int).to_multiset().add(
            children_of_each(children_forest(node, k), root).to_multiset(),
        ) =~= children_forest(node, k).to_multiset(),
    decreases node, k,
{
    broadcast use vstd::multiset::group_multiset_axioms;

    if k == 0 {
        assert(node.children().take(0) =~= Seq::<JsonView>::empty());
        assert(children_forest(node, 0) =~= Seq::<JsonView>::empty());
        assert(children_of_each(Seq::<JsonView>::empty(), root) =~= Seq::<JsonView>::empty());
        lemma_empty_multiset();
    } else {
        let child = node.children()[k - 1];
        let before = children_forest(node, (k - 1) as nat);
        let below = descendants(child);
        lemma_forest_children(node, (k - 1) as nat, root);
        lemma_descendant_children(child, root);
        lemma_children_of_each_concat(before, below, root);
        vstd::seq_lib::lemma_multiset_commutative(before, below);
        vstd::seq_lib::lemma_multiset_commutative(
            children_of_each(before, root),
            children_of_each(below, root),
        );
        assert(node.children().take(k as int) =~= node.children().take(k - 1) + seq![child]);
        vstd::seq_lib::lemma_multiset_commutative(node.children().take(k - 1), seq![child]);
        assert(below =~= seq![child] + below.drop_first());
        vstd::seq_lib::lemma_multiset_commutative(seq![child], below.drop_first());
    }
}

/// Among the descendants of a node, the children of all nodes are all the
/// nodes but the node itself.
proof fn lemma_descendant_children(node: JsonView, root: JsonView)
    ensures
        children_of_each(descendants(node), root).to_multiset() =~= descendants(
            node,
        ).drop_first().to_multiset(),
    decreases node, node.children().len() + 1,
{
    broadcast use vstd::multiset::group_multiset_axioms;

    let count = node.children().len();
    let below = children_forest(node, count);
    lemma_forest_children(node, count, root);
    lemma_children_of_each_concat(seq![node], below, root);
    lemma_children_of_one(node, root);
    assert(node.children().take(count as int) =~= node.children());
    assert(descendants(node).drop_first() =~= below);
    vstd::seq_lib::lemma_multiset_commutative(node.children(), children_of_each(below, root));
}

/// `$..*` yields every node of the document but the root, each as often as
/// it occurs: the children of the root, then the children of each further
/// node, the nodes taken in pre-order.
pub proof fn law_descendant_wildcard(root: JsonView)
    ensures
        evaluate_spec(descendant_query(SelectorView::Wildcard), root) == children_of_each(
            descendants(root),
            root,
        ),
        evaluate_spec(descendant_query(SelectorView::Wildcard), root).to_multiset()
            =~= descendants(root).drop_first().to_multiset(),
{
    law_descendant_segment(SelectorView::Wildcard, root);
    lemma_descendant_children(root, root);
}

/// A name or an index selects at most one child.
proof fn lemma_singular_selector(selector: SelectorView, node: JsonView, root: JsonView)
    requires
        is_singular_selector(selector),
    ensures
        select(selector, node, root).len() <= 1,
{
}

/// A singular query selects at most one node: walking child segments of
/// one name or index each, from one node, yields one node or none.
pub proof fn law_singular_query_selects_at_most_one(
    segments: Seq<SegmentView>,
    k: nat,
    start: JsonView,
    root: JsonView,
)
    requires
        k <= segments.len(),
        singular_segments(segments, k),
    ensures
        walk(segments, k, start, root).len() <= 1,
    decreases k,
{
    if k > 0 {
        law_singular_query_selects_at_most_one(segments, (k - 1) as nat, start, root);
        let nodes = walk(segments, (k - 1) as nat, start, root);
        let segment = segments[k - 1];
        assert(apply_segment_each(segment, nodes, 0, root) =~= Seq::<JsonView>::empty());
        if nodes.len() == 1 {
            let selectors = segment->Child_0;
            lemma_select_list_single(selectors[0], nodes[0], root);
            lemma_singular_selector(selectors[0], nodes[0], root);
            assert(selectors =~= seq![selectors[0]]);
            assert(apply_segment_each(segment, nodes, 1, root) =~= apply_segment(
                segment,
                nodes[0],
                root,
            ));
        }
    }
}

} // verus!
