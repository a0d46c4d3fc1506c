//! Evaluation of queries against documents.

use jpp_core::ast::JsonPath;
use jpp_core::eval::evaluate;
use jpp_core::json::{Json, Member};
use jpp_core::lexer::parse_number;
use jpp_core::parser::Parser;

fn to_json(value: &serde_json::Value) -> Json {
    match value {
        serde_json::Value::Null => Json::Null,
        serde_json::Value::Bool(b) => Json::Bool(*b),
        serde_json::Value::Number(n) => {
            let double = n.as_f64().unwrap();
            let text = serde_json::Number::from_f64(double).unwrap().to_string();
            Json::Number(parse_number(&text).unwrap())
        }
        serde_json::Value::String(s) => Json::String(s.clone()),
        serde_json::Value::Array(items) => Json::Array(items.iter().map(to_json).collect()),
        serde_json::Value::Object(members) => Json::Object(
            members
                .iter()
                .map(|(name, value)| Member { name: name.clone(), value: to_json(value) })
                .collect(),
        ),
    }
}

/// The document that the JSON text holds.
fn doc(text: &str) -> Json {
    to_json(&serde_json::from_str(text).unwrap())
}

/// The member `name` of an object.
fn field<'a>(value: &'a Json, name: &str) -> &'a Json {
    match value {
        Json::Object(members) => &members.iter().find(|m| m.name == name).unwrap().value,
        _ => panic!("not an object"),
    }
}

fn text(s: &str) -> Json {
    Json::String(s.to_string())
}

fn query(path: &str, json: &Json) -> Vec<Json> {
    let parsed: JsonPath = Parser::parse(path).unwrap();
    evaluate(&parsed, json).into_iter().map(|node| node.duplicate()).collect()
}

#[test]
fn test_root_only() {
    let json = doc(r#"{"foo": "bar"}"#);
    let results = query("$", &json);
    assert_eq!(results, vec![doc(r#"{"foo": "bar"}"#)]);
}

#[test]
fn test_simple_name() {
    let json = doc(r#"{"foo": "bar"}"#);
    let results = query("$.foo", &json);
    assert_eq!(results, vec![doc(r#""bar""#)]);
}

#[test]
fn test_nested_name() {
    let json = doc(r#"{"foo": {"bar": "baz"}}"#);
    let results = query("$.foo.bar", &json);
    assert_eq!(results, vec![doc(r#""baz""#)]);
}

#[test]
fn eval_test_array_index() {
    let json = doc(r#"{"arr": [1, 2, 3]}"#);
    let results = query("$.arr[0]", &json);
    assert_eq!(results, vec![doc(r#"1"#)]);
}

#[test]
fn eval_test_negative_index() {
    let json = doc(r#"{"arr": [1, 2, 3]}"#);
    let results = query("$.arr[-1]", &json);
    assert_eq!(results, vec![doc(r#"3"#)]);
}

#[test]
fn test_wildcard_array() {
    let json = doc(r#"{"arr": [1, 2, 3]}"#);
    let results = query("$.arr[*]", &json);
    assert_eq!(results, vec![doc(r#"1"#), doc(r#"2"#), doc(r#"3"#)]);
}

#[test]
fn test_wildcard_object() {
    let json = doc(r#"{"a": 1, "b": 2}"#);
    let results = query("$.*", &json);
    assert_eq!(results.len(), 2);
}

#[test]
fn eval_test_descendant() {
    let json = doc(r#"{ "store": { "book": [ {"author": "Author1"}, {"author": "Author2"} ] } }"#);
    let results = query("$..author", &json);
    assert_eq!(results, vec![doc(r#""Author1""#), doc(r#""Author2""#)]);
}

#[test]
fn test_slice() {
    let json = doc(r#"{"arr": [0, 1, 2, 3, 4]}"#);
    let results = query("$.arr[1:3]", &json);
    assert_eq!(results, vec![doc(r#"1"#), doc(r#"2"#)]);
}

#[test]
fn test_complex_path() {
    let json = doc(r#"{ "store": { "book": [ {"title": "Book1", "price": 10}, {"title": "Book2", "price": 20} ] } }"#);
    let results = query("$.store.book[0].title", &json);
    assert_eq!(results, vec![doc(r#""Book1""#)]);
}

// ========== Filter Expression Tests ==========

#[test]
fn test_filter_existence() {
    let json = doc(r#"{ "items": [ {"name": "apple", "price": 5}, {"name": "banana"}, {"name": "cherry", "price": 15} ] }"#);
    let results = query("$.items[?@.price]", &json);
    assert_eq!(results.len(), 2);
    assert_eq!(*field(&results[0], "name"), text("apple"));
    assert_eq!(*field(&results[1], "name"), text("cherry"));
}

#[test]
fn test_filter_comparison_less_than() {
    let json = doc(r#"{ "items": [ {"name": "apple", "price": 5}, {"name": "banana", "price": 10}, {"name": "cherry", "price": 15} ] }"#);
    let results = query("$.items[?@.price < 10]", &json);
    assert_eq!(results.len(), 1);
    assert_eq!(*field(&results[0], "name"), text("apple"));
}

#[test]
fn test_filter_comparison_equal() {
    let json = doc(r#"{ "items": [ {"name": "apple", "price": 5}, {"name": "banana", "price": 10}, {"name": "cherry", "price": 15} ] }"#);
    let results = query("$.items[?@.price == 10]", &json);
    assert_eq!(results.len(), 1);
    assert_eq!(*field(&results[0], "name"), text("banana"));
}

#[test]
fn test_filter_comparison_string() {
    let json = doc(r#"{ "items": [ {"name": "apple"}, {"name": "banana"}, {"name": "cherry"} ] }"#);
    let results = query("$.items[?@.name == \"banana\"]", &json);
    assert_eq!(results.len(), 1);
    assert_eq!(*field(&results[0], "name"), text("banana"));
}

#[test]
fn test_filter_comparison_float() {
    let json = doc(r#"{ "items": [ {"name": "apple", "price": 1.5}, {"name": "banana", "price": 2.5}, {"name": "cherry", "price": 3.5} ] }"#);
    // Test equality with float literal
    let results = query("$.items[?@.price == 2.5]", &json);
    assert_eq!(results.len(), 1);
    assert_eq!(*field(&results[0], "name"), text("banana"));

    // Test less-than with float literal
    let results = query("$.items[?@.price < 2.0]", &json);
    assert_eq!(results.len(), 1);
    assert_eq!(*field(&results[0], "name"), text("apple"));

    // Test greater-than with float literal
    let results = query("$.items[?@.price > 3.0]", &json);
    assert_eq!(results.len(), 1);
    assert_eq!(*field(&results[0], "name"), text("cherry"));
}

#[test]
fn test_filter_comparison_float_exponent() {
    let json = doc(r#"{ "items": [ {"name": "small", "value": 1e-3}, {"name": "medium", "value": 1.0}, {"name": "large", "value": 1e3} ] }"#);
    // Test with exponent notation
    let results = query("$.items[?@.value == 1e3]", &json);
    assert_eq!(results.len(), 1);
    assert_eq!(*field(&results[0], "name"), text("large"));

    // Test with negative exponent
    let results = query("$.items[?@.value < 1e-2]", &json);
    assert_eq!(results.len(), 1);
    assert_eq!(*field(&results[0], "name"), text("small"));
}

#[test]
fn test_filter_logical_and() {
    let json = doc(r#"{ "items": [ {"name": "apple", "price": 5, "available": true}, {"name": "banana", "price": 10, "available": false}, {"name": "cherry", "price": 8, "available": true} ] }"#);
    let results = query("$.items[?@.price < 10 && @.available == true]", &json);
    assert_eq!(results.len(), 2);
    assert_eq!(*field(&results[0], "name"), text("apple"));
    assert_eq!(*field(&results[1], "name"), text("cherry"));
}

#[test]
fn test_filter_logical_or() {
    let json = doc(r#"{ "items": [ {"name": "apple", "price": 5}, {"name": "banana", "price": 10}, {"name": "cherry", "price": 15} ] }"#);
    let results = query("$.items[?@.price < 6 || @.price > 14]", &json);
    assert_eq!(results.len(), 2);
    assert_eq!(*field(&results[0], "name"), text("apple"));
    assert_eq!(*field(&results[1], "name"), text("cherry"));
}

#[test]
fn test_filter_not() {
    // RFC 9535: [?!@.archived] matches items where 'archived' does NOT exist
    // (negates existence test, not the value)
    let json = doc(r#"{ "items": [ {"name": "apple", "archived": false}, {"name": "banana", "archived": true}, {"name": "cherry"} ] }"#);
    let results = query("$.items[?!@.archived]", &json);
    assert_eq!(results.len(), 1);
    assert_eq!(*field(&results[0], "name"), text("cherry"));

    // To filter by value being false, use comparison:
    let results_false = query("$.items[?@.archived == false]", &json);
    assert_eq!(results_false.len(), 1);
    assert_eq!(*field(&results_false[0], "name"), text("apple"));
}

#[test]
fn test_filter_null_comparison() {
    let json = doc(r#"{ "items": [ {"name": "apple", "discount": null}, {"name": "banana", "discount": 5}, {"name": "cherry"} ] }"#);
    // Per RFC 9535: Nothing != null is true (one side absent, one has value)
    // So cherry (missing discount) also matches, in addition to banana
    let results = query("$.items[?@.discount != null]", &json);
    assert_eq!(results.len(), 2);
    assert_eq!(*field(&results[0], "name"), text("banana"));
    assert_eq!(*field(&results[1], "name"), text("cherry"));
}

#[test]
fn test_filter_greater_equal() {
    let json = doc(r#"{ "items": [ {"name": "apple", "price": 5}, {"name": "banana", "price": 10}, {"name": "cherry", "price": 15} ] }"#);
    let results = query("$.items[?@.price >= 10]", &json);
    assert_eq!(results.len(), 2);
    assert_eq!(*field(&results[0], "name"), text("banana"));
    assert_eq!(*field(&results[1], "name"), text("cherry"));
}

#[test]
fn test_filter_nested_path() {
    let json = doc(r#"{ "items": [ {"name": "apple", "info": {"category": "fruit"}}, {"name": "carrot", "info": {"category": "vegetable"}}, {"name": "banana", "info": {"category": "fruit"}} ] }"#);
    let results = query("$.items[?@.info.category == \"fruit\"]", &json);
    assert_eq!(results.len(), 2);
    assert_eq!(*field(&results[0], "name"), text("apple"));
    assert_eq!(*field(&results[1], "name"), text("banana"));
}

// ========== Built-in Function Tests ==========

#[test]
fn test_function_length_string() {
    let json = doc(r#"{ "items": [ {"name": "apple"}, {"name": "banana"}, {"name": "fig"} ] }"#);
    // Filter items where name length > 4
    let results = query("$.items[?length(@.name) > 4]", &json);
    assert_eq!(results.len(), 2);
    assert_eq!(*field(&results[0], "name"), text("apple"));
    assert_eq!(*field(&results[1], "name"), text("banana"));
}

#[test]
fn test_function_length_array() {
    let json = doc(r#"{ "items": [ {"name": "a", "tags": [1, 2, 3]}, {"name": "b", "tags": [1]}, {"name": "c", "tags": [1, 2, 3, 4, 5]} ] }"#);
    // Filter items where tags array length >= 3
    let results = query("$.items[?length(@.tags) >= 3]", &json);
    assert_eq!(results.len(), 2);
    assert_eq!(*field(&results[0], "name"), text("a"));
    assert_eq!(*field(&results[1], "name"), text("c"));
}

#[test]
fn test_function_length_object() {
    let json = doc(r#"{ "items": [ {"name": "a", "props": {"x": 1}}, {"name": "b", "props": {"x": 1, "y": 2, "z": 3}}, {"name": "c", "props": {}} ] }"#);
    // Filter items where props object has > 1 key
    let results = query("$.items[?length(@.props) > 1]", &json);
    assert_eq!(results.len(), 1);
    assert_eq!(*field(&results[0], "name"), text("b"));
}

#[test]
fn test_function_match() {
    let json = doc(r#"{ "items": [ {"name": "apple"}, {"name": "apricot"}, {"name": "banana"} ] }"#);
    // Filter items where name matches pattern "ap.*"
    let results = query("$.items[?match(@.name, \"ap.*\")]", &json);
    assert_eq!(results.len(), 2);
    assert_eq!(*field(&results[0], "name"), text("apple"));
    assert_eq!(*field(&results[1], "name"), text("apricot"));
}

#[test]
fn test_function_search() {
    let json = doc(r#"{ "items": [ {"name": "apple pie"}, {"name": "banana"}, {"name": "pineapple"} ] }"#);
    // Filter items where name contains "apple"
    let results = query("$.items[?search(@.name, \"apple\")]", &json);
    assert_eq!(results.len(), 2);
    assert_eq!(*field(&results[0], "name"), text("apple pie"));
    assert_eq!(*field(&results[1], "name"), text("pineapple"));
}

#[test]
fn test_function_match_vs_search() {
    let json = doc(r#"{ "items": [ {"name": "test"}, {"name": "testing"}, {"name": "a test here"} ] }"#);
    // match() requires full match
    let match_results = query("$.items[?match(@.name, \"test\")]", &json);
    assert_eq!(match_results.len(), 1);
    assert_eq!(*field(&match_results[0], "name"), text("test"));

    // search() finds substring
    let search_results = query("$.items[?search(@.name, \"test\")]", &json);
    assert_eq!(search_results.len(), 3);
}

// ========== Null Existence Semantics Tests ==========

#[test]
fn test_existence_with_null_value() {
    // RFC 9535: [?@.a] should match if 'a' exists, even if its value is null
    let json = doc(r#"{ "items": [ {"a": null}, {"a": 1}, {"b": 2} ] }"#);
    let results = query("$.items[?@.a]", &json);
    // Both {"a": null} and {"a": 1} should match (a exists in both)
    assert_eq!(results.len(), 2);
    assert_eq!(results[0], doc(r#"{"a": null}"#));
    assert_eq!(results[1], doc(r#"{"a": 1}"#));
}

#[test]
fn test_null_comparison_equal() {
    let json = doc(r#"{ "items": [ {"a": null}, {"a": 1}, {"b": 2} ] }"#);
    // [?@.a == null] should only match {"a": null}
    let results = query("$.items[?@.a == null]", &json);
    assert_eq!(results.len(), 1);
    assert_eq!(results[0], doc(r#"{"a": null}"#));
}

#[test]
fn test_null_comparison_not_equal() {
    let json = doc(r#"{ "items": [ {"a": null}, {"a": 1}, {"b": 2} ] }"#);
    // Per RFC 9535: Nothing != null is true (one side absent, one has value)
    // So {"a": 1} matches (1 != null) and {"b": 2} matches (Nothing != null)
    let results = query("$.items[?@.a != null]", &json);
    assert_eq!(results.len(), 2);
    assert_eq!(results[0], doc(r#"{"a": 1}"#));
    assert_eq!(results[1], doc(r#"{"b": 2}"#));
}

// ========== Nested Filter Tests ==========

#[test]
fn test_nested_filter_basic() {
    // $[?@[?@.a]] - select elements that have children with property 'a'
    let json = doc(r#"[ [{"a": 1}, {"b": 2}], [{"b": 3}], [{"a": 4}, {"a": 5}] ]"#);
    let results = query("$[?@[?@.a]]", &json);
    // First and third arrays have children with property 'a'
    assert_eq!(results.len(), 2);
    assert_eq!(results[0], doc(r#"[{"a": 1}, {"b": 2}]"#));
    assert_eq!(results[1], doc(r#"[{"a": 4}, {"a": 5}]"#));
}

#[test]
fn test_nested_filter_with_comparison() {
    let json = doc(r#"[ [{"x": 1}, {"x": 10}], [{"x": 5}], [{"x": 20}, {"x": 30}] ]"#);
    // Select arrays that have at least one element with x > 15
    let results = query("$[?@[?@.x > 15]]", &json);
    assert_eq!(results.len(), 1);
    assert_eq!(results[0], doc(r#"[{"x": 20}, {"x": 30}]"#));
}

#[test]
fn test_nested_filter_in_path() {
    let json = doc(r#"{ "data": [ {"items": [{"valid": true}, {"valid": false}]}, {"items": [{"valid": false}]}, {"items": [{"valid": true}]} ] }"#);
    // Select data items that have at least one valid item
    let results = query("$.data[?@.items[?@.valid == true]]", &json);
    assert_eq!(results.len(), 2);
}

// ========== Non-Singular Query Comparison Tests ==========

#[test]
fn test_non_singular_wildcard_comparison_rejected() {
    // RFC 9535: @[*] is non-singular and must be rejected at parse time
    let result = Parser::parse("$[?@[*] == 1]");
    assert!(result.is_err());
    assert!(
        result
            .unwrap_err()
            .message
            .contains("non-singular query not allowed")
    );
}

#[test]
fn test_singular_index_comparison_works() {
    // @[0] is singular, comparison should work
    let json = doc(r#"[[1, 2, 3], [5, 6], [1, 7]]"#);
    // $[?@[0] == 1] should match arrays whose first element is 1
    let results = query("$[?@[0] == 1]", &json);
    assert_eq!(results.len(), 2);
    assert_eq!(results[0], doc(r#"[1, 2, 3]"#));
    assert_eq!(results[1], doc(r#"[1, 7]"#));
}

#[test]
fn test_singular_property_comparison_works() {
    // @.a is singular, comparison should work
    let json = doc(r#"[ {"a": 1, "b": 2}, {"a": 5}, {"a": 1} ]"#);
    let results = query("$[?@.a == 1]", &json);
    assert_eq!(results.len(), 2);
}

#[test]
fn test_non_singular_on_right_side_rejected() {
    // RFC 9535: Non-singular on right side must be rejected at parse time
    let result = Parser::parse("$.items[?@.val == @.arr[*]]");
    assert!(result.is_err());
    assert!(
        result
            .unwrap_err()
            .message
            .contains("non-singular query not allowed")
    );
}

// ========== Values of filters ==========

fn ids(path: &str, json: &Json) -> Vec<Json> {
    query(path, json).iter().map(|v| field(v, "id").duplicate()).collect()
}

fn numbers(values: &[u32]) -> Vec<Json> {
    values.iter().map(|v| doc(&v.to_string())).collect()
}

#[test]
fn comparison_of_values_of_one_type() {
    let json = doc(
        r#"[{"id": 1, "v": 1}, {"id": 2, "v": 1.0}, {"id": 3, "v": 1e0}, {"id": 4, "v": 2},
            {"id": 5, "v": -1}, {"id": 6, "v": "1"}, {"id": 7, "v": "a"}, {"id": 8, "v": "ab"},
            {"id": 9, "v": "b"}, {"id": 10, "v": true}, {"id": 11, "v": false},
            {"id": 12, "v": null}, {"id": 13, "v": [1, 2]}, {"id": 14, "v": {"x": 1, "y": [2]}},
            {"id": 15}]"#,
    );
    assert_eq!(ids("$[?@.v == 1]", &json), numbers(&[1, 2, 3]));
    assert_eq!(ids("$[?@.v != 1]", &json), numbers(&[4, 5, 6, 7, 8, 9, 10, 11, 12, 13, 14, 15]));
    assert_eq!(ids("$[?@.v < 2]", &json), numbers(&[1, 2, 3, 5]));
    assert_eq!(ids("$[?@.v <= 1]", &json), numbers(&[1, 2, 3, 5]));
    assert_eq!(ids("$[?@.v > 1]", &json), numbers(&[4]));
    assert_eq!(ids("$[?@.v >= 1]", &json), numbers(&[1, 2, 3, 4]));
    assert_eq!(ids("$[?@.v < 'b']", &json), numbers(&[6, 7, 8]));
    assert_eq!(ids("$[?@.v > 'a']", &json), numbers(&[8, 9]));
    assert_eq!(ids("$[?@.v >= 'ab']", &json), numbers(&[8, 9]));
    assert_eq!(ids("$[?@.v == 'a']", &json), numbers(&[7]));
    assert_eq!(ids("$[?@.v == true]", &json), numbers(&[10]));
    assert_eq!(ids("$[?@.v <= true]", &json), numbers(&[]));
    assert_eq!(ids("$[?@.v >= true]", &json), numbers(&[]));
    assert_eq!(ids("$[?@.v < true]", &json), numbers(&[]));
    assert_eq!(ids("$[?@.v == null]", &json), numbers(&[12]));
    assert_eq!(ids("$[?@.v >= null]", &json), numbers(&[]));
    assert_eq!(ids("$[?@.v <= null]", &json), numbers(&[]));
    assert_eq!(ids("$[?@.v > null]", &json), numbers(&[]));
    assert_eq!(ids("$[?@.v == $[12].v]", &json), numbers(&[13]));
    assert_eq!(ids("$[?@.v >= $[12].v]", &json), numbers(&[]));
    assert_eq!(ids("$[?@.v <= $[12].v]", &json), numbers(&[]));
    assert_eq!(ids("$[?@.v <= $[13].v]", &json), numbers(&[]));
    assert_eq!(ids("$[?@.v >= $[13].v]", &json), numbers(&[]));
    assert_eq!(ids("$[?@.v <= 'a']", &json), numbers(&[6, 7]));
    assert_eq!(ids("$[?@.v >= 2]", &json), numbers(&[4]));
    assert_eq!(ids("$[?@.v < $[12].v]", &json), numbers(&[]));
    assert_eq!(ids("$[?@.v == $[13].v]", &json), numbers(&[14]));
    assert_eq!(ids("$[?@.v == @.missing]", &json), numbers(&[15]));
    assert_eq!(ids("$[?@.v != @.missing]", &json), numbers(&[1, 2, 3, 4, 5, 6, 7, 8, 9, 10, 11, 12, 13, 14]));
    assert_eq!(ids("$[?@.v < @.missing]", &json), numbers(&[]));
    assert_eq!(ids("$[?@.v <= @.missing]", &json), numbers(&[]));
    assert_eq!(ids("$[?@.v >= @.missing]", &json), numbers(&[]));
}

#[test]
fn objects_are_equal_whatever_the_order_of_their_members() {
    let json = doc(
        r#"[{"id": 1, "v": {"a": 1, "b": [true, null]}}, {"id": 2, "v": {"b": [true, null], "a": 1.0}},
            {"id": 3, "v": {"a": 1}}, {"id": 4, "v": {"a": 1, "b": [null, true]}},
            {"id": 5, "v": {"a": 1, "c": [true, null]}}, {"id": 6, "v": [{"a": 1, "b": [true, null]}]}]"#,
    );
    assert_eq!(ids("$[?@.v == $[0].v]", &json), numbers(&[1, 2]));
    assert_eq!(ids("$[?@.v[0] == $[1].v]", &json), numbers(&[6]));
}

#[test]
fn truth_of_values_and_of_node_lists() {
    let json = doc(
        r#"[{"id": 1, "v": 0}, {"id": 2, "v": ""}, {"id": 3, "v": []}, {"id": 4, "v": {}},
            {"id": 5, "v": false}, {"id": 6, "v": null}, {"id": 7, "v": 2}, {"id": 8}]"#,
    );
    // a node that exists is true whatever it holds
    assert_eq!(ids("$[?@.v]", &json), numbers(&[1, 2, 3, 4, 5, 6, 7]));
    assert_eq!(ids("$[?!@.v]", &json), numbers(&[8]));
    assert_eq!(ids("$[?@.v || @.id == 8]", &json), numbers(&[1, 2, 3, 4, 5, 6, 7, 8]));
    assert_eq!(ids("$[?@.v && @.id > 5]", &json), numbers(&[6, 7]));
    assert_eq!(ids("$[?@.v.*]", &json), numbers(&[]));
    assert_eq!(ids("$[?@]", &json), numbers(&[1, 2, 3, 4, 5, 6, 7, 8]));
    assert_eq!(ids("$[?$]", &json), numbers(&[1, 2, 3, 4, 5, 6, 7, 8]));
    // the root as a value: an empty array is false
    assert_eq!(query("$[?$]", &doc("[]")), Vec::<Json>::new());
    assert_eq!(query("$[?$ || @ == 1]", &doc("[1, 2]")), vec![doc("1"), doc("2")]);
    // a path to the root's member is a node list: it is true as the member exists
    assert_eq!(query("$.a[?!$.b]", &doc(r#"{"a": [1, 2], "b": []}"#)), Vec::<Json>::new());
    assert_eq!(query("$.a[?$.b]", &doc(r#"{"a": [1, 2], "b": []}"#)), vec![doc("1"), doc("2")]);
}

#[test]
fn functions() {
    let json = doc(
        r#"[{"id": 1, "v": "abc"}, {"id": 2, "v": [1, 2, 3]}, {"id": 3, "v": {"a": 1, "b": 2, "c": 3}},
            {"id": 4, "v": 3}, {"id": 5, "v": null}, {"id": 6}, {"id": 7, "v": ""}]"#,
    );
    assert_eq!(ids("$[?length(@.v) == 3]", &json), numbers(&[1, 2, 3]));
    assert_eq!(ids("$[?length(@.v) == 0]", &json), numbers(&[7]));
    // a number, null and a missing member have no length
    assert_eq!(ids("$[?length(@.v) == length(@.none)]", &json), numbers(&[4, 5, 6]));
    assert_eq!(ids("$[?length('abc') == length(@.v)]", &json), numbers(&[1, 2, 3]));
    assert_eq!(ids("$[?count(@.v.*) == 3]", &json), numbers(&[2, 3]));
    assert_eq!(ids("$[?count(@.v) == 1]", &json), numbers(&[1, 2, 3, 4, 5, 7]));
    assert_eq!(ids("$[?count(@.v) == 0]", &json), numbers(&[6]));
    assert_eq!(ids("$[?count(@) == 1]", &json), numbers(&[1, 2, 3, 4, 5, 6, 7]));
    assert_eq!(ids("$[?count($..*) > 20]", &json), numbers(&[1, 2, 3, 4, 5, 6, 7]));
    assert_eq!(ids("$[?value(@.v) == 3]", &json), numbers(&[4]));
    assert_eq!(ids("$[?value(@.v.*) == 3]", &json), numbers(&[]));
    assert_eq!(ids("$[?value(@.v[2:]) == 3]", &json), numbers(&[2]));
    assert_eq!(ids("$[?value(@.v.*) == value(@.none)]", &json), numbers(&[1, 2, 3, 4, 5, 6, 7]));
    assert_eq!(ids("$[?length(value(@.v)) == 3]", &json), numbers(&[1, 2, 3]));
    assert_eq!(ids("$[?match(@.v, 'a.c')]", &json), numbers(&[1]));
    assert_eq!(ids("$[?match(@.v, 'b')]", &json), numbers(&[]));
    assert_eq!(ids("$[?search(@.v, 'b')]", &json), numbers(&[1]));
    assert_eq!(ids("$[?search(@.v, '')]", &json), numbers(&[1, 7]));
    assert_eq!(ids("$[?!match(@.v, 'abc')]", &json), numbers(&[2, 3, 4, 5, 6, 7]));
    assert_eq!(ids("$[?match(@.v, '(')]", &json), numbers(&[]));
    assert_eq!(ids("$[?search(@.v, @.v)]", &json), numbers(&[1, 7]));
    assert_eq!(ids("$[?match('3', @.v)]", &json), numbers(&[]));
}

#[test]
fn selectors_on_values_of_every_type() {
    let json = doc(r#"{"o": {"a": 1, "b": 2}, "l": [10, 20, 30], "s": "text", "n": 5, "z": null}"#);
    assert_eq!(query("$.o.a", &json), vec![doc("1")]);
    assert_eq!(query("$.o['b', 'a', 'none', 'a']", &json), vec![doc("2"), doc("1"), doc("1")]);
    assert_eq!(query("$.l.a", &json), Vec::<Json>::new());
    assert_eq!(query("$.o[0]", &json), Vec::<Json>::new());
    assert_eq!(query("$.s[0]", &json), Vec::<Json>::new());
    assert_eq!(query("$.s.*", &json), Vec::<Json>::new());
    assert_eq!(query("$.n[:]", &json), Vec::<Json>::new());
    assert_eq!(query("$.o[:]", &json), Vec::<Json>::new());
    assert_eq!(query("$.z[?@]", &json), Vec::<Json>::new());
    assert_eq!(query("$.l[3]", &json), Vec::<Json>::new());
    assert_eq!(query("$.l[-4]", &json), Vec::<Json>::new());
    assert_eq!(query("$.l[-3, 2, 0, 1:, ::-2]", &json), [10, 30, 10, 20, 30, 30, 10].iter().map(|v| doc(&v.to_string())).collect::<Vec<_>>());
    assert_eq!(query("$.o[?@ > 1]", &json), vec![doc("2")]);
    assert_eq!(query("$.l[?@ > 10]", &json), vec![doc("20"), doc("30")]);
    assert_eq!(query("$.*[?@ > 10]", &json), vec![doc("20"), doc("30")]);
    assert_eq!(query("$[?@[?@ > 25]]", &json), vec![doc("[10, 20, 30]")]);
    assert_eq!(query("$..[?@ == 2]", &json), vec![doc("2")]);
    assert_eq!(query("$.none.x[0]..y", &json), Vec::<Json>::new());
    assert_eq!(query("$['s']", &json), vec![text("text")]);
    assert_eq!(query("$.true", &doc(r#"{"true": 1}"#)), vec![doc("1")]);
}

#[test]
fn descendants_come_in_pre_order() {
    let json = doc(r#"{"a": {"b": [1, {"c": 2}], "d": 3}, "e": [4]}"#);
    let found = query("$..[?@ == @ || @ != @]", &json);
    assert_eq!(
        found,
        vec![
            doc(r#"{"b": [1, {"c": 2}], "d": 3}"#),
            doc("[4]"),
            doc(r#"[1, {"c": 2}]"#),
            doc("3"),
            doc("1"),
            doc(r#"{"c": 2}"#),
            doc("2"),
            doc("4")
        ]
    );
    assert_eq!(query("$..*", &json), found);
    assert_eq!(query("$..c", &json), vec![doc("2")]);
    assert_eq!(query("$..[0]", &json), vec![doc("1"), doc("4")]);
    assert_eq!(query("$..*", &doc("1")), Vec::<Json>::new());
    assert_eq!(query("$..*..*", &doc("[[1]]")), vec![doc("1")]);
}

#[test]
fn numbers_written_differently() {
    let json = doc(r#"[0.1, 1e-1, 100, 1e2, 1.0e2, -0.0, 0, 5e-324, 1e308]"#);
    assert_eq!(query("$[?@ == 0.1]", &json), vec![doc("0.1"), doc("0.1")]);
    assert_eq!(query("$[?@ == 100.0]", &json).len(), 3);
    assert_eq!(query("$[?@ == 0]", &json).len(), 2);
    assert_eq!(query("$[?@ == -0.0]", &json).len(), 2);
    assert_eq!(query("$[?@ > 0 && @ < 1e-300]", &json).len(), 1);
    assert_eq!(query("$[?@ >= 1e308]", &json).len(), 1);
    assert_eq!(query("$[?@ < 0.100000001 && @ > 0.099999999]", &json).len(), 2);
}

#[test]
fn deep_documents_are_walked_without_recursion() {
    let depth = 20_000;
    let text = format!("{}1{}", "[".repeat(depth), "]".repeat(depth));
    let mut json = Json::Number(parse_number("1").unwrap());
    for _ in 0..depth {
        json = Json::Array(vec![json]);
    }
    assert_eq!(text.len(), 2 * depth + 1);
    let path = Parser::parse("$..*").unwrap();
    assert_eq!(evaluate(&path, &json).len(), depth);
    // leave the value to be freed level by level
    let mut rest = json;
    while let Json::Array(mut items) = rest {
        rest = items.pop().unwrap();
    }
}

#[test]
fn only_numbers_and_strings_are_ordered() {
    let json = doc(r#"[[1], [], {"a": 1}, {}, true, false, null, 1, "a"]"#);
    for op in ["<", ">"] {
        assert_eq!(query(&format!("$[?@ {op} @]"), &json), Vec::<Json>::new(), "{op}");
    }
    // of the values that equal themselves, only the number and the string
    // are at most, and at least, themselves
    for op in ["<=", ">="] {
        assert_eq!(query(&format!("$[?@ {op} @]"), &json), vec![doc("1"), text("a")], "{op}");
    }
    for op in ["<", ">", "<=", ">="] {
        let unordered = doc(r#"[[1], [], {"a": 1}, {}, true, false, null]"#);
        assert_eq!(query(&format!("$[?@ {op} @]"), &unordered), Vec::<Json>::new(), "{op}");
        assert_eq!(query(&format!("$[?@ {op} $[0]]"), &unordered), Vec::<Json>::new(), "{op}");
        assert_eq!(query(&format!("$[?@ {op} true]"), &unordered), Vec::<Json>::new(), "{op}");
        assert_eq!(query(&format!("$[?@ {op} null]"), &unordered), Vec::<Json>::new(), "{op}");
    }
    assert_eq!(query("$[?@ == @]", &json).len(), 9);
    assert_eq!(query("$[?@ <= 1]", &json), vec![doc("1")]);
    assert_eq!(query("$[?@ >= 'a']", &json), vec![text("a")]);
    assert_eq!(query("$[?@ <= true]", &json), Vec::<Json>::new());
    assert_eq!(query("$[?@ >= null]", &json), Vec::<Json>::new());
    assert_eq!(query("$[?@ <= $[0]]", &json), Vec::<Json>::new());
    assert_eq!(query("$[?@ >= $[3]]", &json), Vec::<Json>::new());
    assert_eq!(query("$[?@ <= 'a' || @ >= 1]", &json), vec![doc("1"), text("a")]);
}

#[test]
fn a_literal_too_large_for_a_double_is_null() {
    let json = doc(r#"[{"a": null}, {"a": 1}, {"a": 1e308}, {"a": "x"}, {}]"#);
    let null_member = vec![doc(r#"{"a": null}"#)];
    assert_eq!(query("$[?@.a == 1e400]", &json), null_member);
    assert_eq!(query("$[?@.a == -1e400]", &json), null_member);
    assert_eq!(query("$[?@.a == 1e99999999999999999999]", &json), null_member);
    assert_eq!(query("$[?@.a == 2e308]", &json), null_member);
    assert_eq!(query("$[?@.a == 1.7976931348623159e308]", &json), null_member);
    assert_eq!(query("$[?@.a < 1e400]", &json), Vec::<Json>::new());
    assert_eq!(query("$[?@.a > -1e400]", &json), Vec::<Json>::new());
    assert_eq!(query("$[?@.a != 1e400]", &json).len(), 4);
    // the largest double and what rounds to it are numbers
    assert_eq!(query("$[?@.a < 1.7976931348623157e308]", &json).len(), 2);
    assert_eq!(query("$[?@.a < 1.7976931348623158e308]", &json).len(), 2);
    assert_eq!(query("$[?@.a == 1.7976931348623157e308]", &json), Vec::<Json>::new());
    // a small number is a number, however small
    assert_eq!(query("$[?@.a > 1e-400]", &json).len(), 2);
    assert_eq!(query("$[?@.a == 1e-400]", &json), Vec::<Json>::new());
}

#[test]
fn the_limit_of_doubles_is_where_doubles_end() {
    let limit = "179769313486231580793728971405303415079934132710037826936173778980444968292764750946649017977587207096330286416692887910946555547851940402630657488671505820681908902000708383676273854845817711531764475730270069855571366959622842914819860834936475292719074168444365510704342711559699508093042880177904174497792";
    let below = "179769313486231580793728971405303415079934132710037826936173778980444968292764750946649017977587207096330286416692887910946555547851940402630657488671505820681908902000708383676273854845817711531764475730270069855571366959622842914819860834936475292719074168444365510704342711559699508093042880177904174497791";
    assert!(limit.parse::<f64>().unwrap().is_infinite());
    assert_eq!(below.parse::<f64>().unwrap(), f64::MAX);
    assert!(parse_number(limit).unwrap().exceeds_double());
    assert!(!parse_number(below).unwrap().exceeds_double());
    assert!(parse_number(&format!("-{limit}")).unwrap().exceeds_double());
    assert!(parse_number(&format!("{limit}.5")).unwrap().exceeds_double());
    assert!(parse_number(&format!("{limit}e-309")).map(|n| !n.exceeds_double()).unwrap());
    assert!(parse_number(&format!("0.{limit}e309")).unwrap().exceeds_double());
    assert!(!parse_number(&format!("0.{below}e309")).unwrap().exceeds_double());
    assert!(!parse_number("0").unwrap().exceeds_double());
    assert!(!parse_number("1e308").unwrap().exceeds_double());
    assert!(parse_number("1e309").unwrap().exceeds_double());
    let null = doc("[null]");
    assert_eq!(query(&format!("$[?@ == {limit}]"), &null), vec![doc("null")]);
    assert_eq!(query(&format!("$[?@ == {below}]"), &null), Vec::<Json>::new());
}
