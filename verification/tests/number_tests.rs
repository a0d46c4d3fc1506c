//! Numbers, indices, slices and patterns: the formulas on given values.

use jpp_core::eval::{
    evaluate_slice, normalize_index, normalize_slice_bound,
    normalize_slice_bound_for_negative_step,
};
use jpp_core::iregexp::{match_outcome, matches_fully, matches_partly, transform_pattern_for_iregexp};
use jpp_core::json::Json;
use jpp_core::lexer::parse_number;
use jpp_core::number::Number;

fn number(text: &str) -> Number {
    parse_number(text).unwrap()
}

fn parts(text: &str) -> (bool, Vec<u8>, i128) {
    let n = number(text);
    (n.is_negative(), n.digits().clone(), n.exponent())
}

#[test]
fn numbers_are_kept_in_canonical_form() {
    assert_eq!(parts("0"), (false, vec![], 0));
    assert_eq!(parts("-0.000"), (false, vec![], 0));
    assert_eq!(parts("0e5"), (false, vec![], 0));
    assert_eq!(parts("8.95"), (false, vec![8, 9, 5], -2));
    assert_eq!(parts("-1200"), (true, vec![1, 2], 2));
    assert_eq!(parts("0.00120"), (false, vec![1, 2], -4));
    assert_eq!(parts("1.5e3"), (false, vec![1, 5], 2));
    assert_eq!(parts("100e-2"), (false, vec![1], 0));
    assert_eq!(parts("1e999999999999999999"), (false, vec![1], 999_999_999_999_999_999));
    assert_eq!(parts("12.5E-999999999999999999"), (false, vec![1, 2, 5], -1_000_000_000_000_000_000));
    // an exponent that is written larger counts as the largest
    assert_eq!(parts("1e1000000000000000000"), (false, vec![1], 999_999_999_999_999_999));
    assert_eq!(parts("-30e-123456789012345678901234567890"), (true, vec![3], -999_999_999_999_999_998));
    assert_eq!(parts("0e123456789012345678901234567890"), (false, vec![], 0));
}

#[test]
fn equal_numbers_have_one_representation() {
    assert!(number("1.0").equals(&number("1")));
    assert!(number("1e3").equals(&number("1000")));
    assert!(number("0.5").equals(&number("5e-1")));
    assert!(number("-0.0").equals(&number("0")));
    assert!(!number("1").equals(&number("-1")));
    assert!(!number("1").equals(&number("10")));
    assert!(!number("12").equals(&number("13")));
    assert_eq!(number("2.50"), number("25e-1"));
    assert!(number("7").duplicate().equals(&number("7")));
}

#[test]
fn order_of_numbers() {
    let ascending = [
        "-1e10", "-12", "-2", "-1.5", "-1", "-0.5", "-1e-7", "0", "1e-7", "0.09", "0.1", "0.11",
        "0.5", "1", "1.0000001", "1.5", "2", "9", "10", "11", "99.9", "100", "1e10", "1e300",
    ];
    for (i, a) in ascending.iter().enumerate() {
        for (j, b) in ascending.iter().enumerate() {
            assert_eq!(number(a).lt(&number(b)), i < j, "{a} < {b}");
        }
    }
}

#[test]
fn whole_text_must_be_one_number() {
    for text in ["", " 1", "1 ", "1.", ".5", "+1", "1e", "0x10", "1,0", "01", "-0", "--1", "1.2.3"] {
        assert!(parse_number(text).is_none(), "{text}");
    }
    for text in ["0", "-1", "0.0", "1e5", "1E-5", "-0.0", "-0e0", "123456789012345678901234567890"] {
        assert!(parse_number(text).is_some(), "{text}");
    }
}

#[test]
fn numbers_of_counts() {
    assert_eq!(Number::from_usize(0), number("0"));
    assert_eq!(Number::from_usize(7), number("7"));
    assert_eq!(Number::from_usize(10), number("10"));
    assert_eq!(Number::from_usize(1200), number("1200"));
    assert_eq!(Number::from_usize(4096), number("4096"));
    assert!(Number::from_usize(0).is_zero());
    assert!(!Number::from_usize(3).is_zero());
}

#[test]
fn integers_that_an_index_may_hold() {
    assert_eq!(number("0").to_integer(), Some(0));
    assert_eq!(number("42").to_integer(), Some(42));
    assert_eq!(number("-42").to_integer(), Some(-42));
    assert_eq!(number("1200").to_integer(), Some(1200));
    assert_eq!(number("12e2").to_integer(), Some(1200));
    assert_eq!(number("9007199254740991").to_integer(), Some(9007199254740991));
    assert_eq!(number("-9007199254740991").to_integer(), Some(-9007199254740991));
    assert_eq!(number("9007199254740992").to_integer(), None);
    assert_eq!(number("-9007199254740992").to_integer(), None);
    assert_eq!(number("9000000000000000").to_integer(), Some(9000000000000000));
    assert_eq!(number("10000000000000000").to_integer(), None);
    assert_eq!(number("1e16").to_integer(), None);
    assert_eq!(number("1e400").to_integer(), None);
    assert_eq!(number("1.5").to_integer(), None);
    assert_eq!(number("1e-1").to_integer(), None);
}

#[test]
fn indices_count_from_the_end_when_negative() {
    assert_eq!(normalize_index(0, 3), Some(0));
    assert_eq!(normalize_index(2, 3), Some(2));
    assert_eq!(normalize_index(3, 3), None);
    assert_eq!(normalize_index(-1, 3), Some(2));
    assert_eq!(normalize_index(-3, 3), Some(0));
    assert_eq!(normalize_index(-4, 3), None);
    assert_eq!(normalize_index(0, 0), None);
    assert_eq!(normalize_index(-1, 0), None);
    assert_eq!(normalize_index(i64::MAX, 3), None);
    assert_eq!(normalize_index(i64::MIN, 3), None);
}

#[test]
fn slice_bounds() {
    assert_eq!(normalize_slice_bound(2, 5), 2);
    assert_eq!(normalize_slice_bound(7, 5), 7);
    assert_eq!(normalize_slice_bound(-2, 5), 3);
    assert_eq!(normalize_slice_bound(-5, 5), 0);
    assert_eq!(normalize_slice_bound(-6, 5), 0);
    assert_eq!(normalize_slice_bound_for_negative_step(2, 5), 2);
    assert_eq!(normalize_slice_bound_for_negative_step(-2, 5), 3);
    assert_eq!(normalize_slice_bound_for_negative_step(-5, 5), 0);
    assert_eq!(normalize_slice_bound_for_negative_step(-6, 5), -1);
    assert_eq!(normalize_slice_bound_for_negative_step(-100, 5), -1);
}

fn sliced(start: Option<i64>, end: Option<i64>, step: Option<i64>) -> Vec<usize> {
    let items: Vec<Json> = (0..6).map(|i| Json::Number(Number::from_usize(i))).collect();
    evaluate_slice(&items, start, end, step)
        .into_iter()
        .map(|node| items.iter().position(|item| std::ptr::eq(item, node)).unwrap())
        .collect()
}

#[test]
fn slices() {
    assert_eq!(sliced(None, None, None), vec![0, 1, 2, 3, 4, 5]);
    assert_eq!(sliced(Some(1), Some(3), None), vec![1, 2]);
    assert_eq!(sliced(Some(1), Some(5), Some(2)), vec![1, 3]);
    assert_eq!(sliced(Some(-2), None, None), vec![4, 5]);
    assert_eq!(sliced(None, Some(-4), None), vec![0, 1]);
    assert_eq!(sliced(Some(-100), Some(100), None), vec![0, 1, 2, 3, 4, 5]);
    assert_eq!(sliced(Some(4), Some(2), None), Vec::<usize>::new());
    assert_eq!(sliced(Some(7), None, None), Vec::<usize>::new());
    assert_eq!(sliced(None, None, Some(0)), Vec::<usize>::new());
    assert_eq!(sliced(None, None, Some(-1)), vec![5, 4, 3, 2, 1, 0]);
    assert_eq!(sliced(None, None, Some(-2)), vec![5, 3, 1]);
    assert_eq!(sliced(Some(4), Some(1), Some(-1)), vec![4, 3, 2]);
    assert_eq!(sliced(Some(-2), Some(-5), Some(-1)), vec![4, 3, 2]);
    assert_eq!(sliced(Some(100), Some(-100), Some(-1)), vec![5, 4, 3, 2, 1, 0]);
    assert_eq!(sliced(Some(3), None, Some(-3)), vec![3, 0]);
    assert_eq!(sliced(Some(1), Some(3), Some(-1)), Vec::<usize>::new());
    assert_eq!(sliced(None, None, Some(i64::MAX)), vec![0]);
    assert_eq!(sliced(None, None, Some(i64::MIN)), vec![5]);
    assert_eq!(sliced(Some(i64::MIN), Some(i64::MAX), Some(3)), vec![0, 3]);
}

#[test]
fn dot_is_rewritten_outside_classes() {
    assert_eq!(transform_pattern_for_iregexp(""), "");
    assert_eq!(transform_pattern_for_iregexp("abc"), "abc");
    assert_eq!(transform_pattern_for_iregexp("a.c"), "a[^\\r\\n]c");
    assert_eq!(transform_pattern_for_iregexp("ap.*"), "ap[^\\r\\n]*");
    assert_eq!(transform_pattern_for_iregexp("a\\.c"), "a\\.c");
    assert_eq!(transform_pattern_for_iregexp("[.]x."), "[.]x[^\\r\\n]");
    assert_eq!(transform_pattern_for_iregexp("[a\\].]."), "[a\\].][^\\r\\n]");
    assert_eq!(transform_pattern_for_iregexp("[[.]].]"), "[[.]][^\\r\\n]]");
    assert_eq!(transform_pattern_for_iregexp(".\\"), "[^\\r\\n]\\");
    assert_eq!(transform_pattern_for_iregexp("\\\\."), "\\\\[^\\r\\n]");
}

#[test]
fn matching_whole_and_part() {
    assert!(matches_fully("test", "test"));
    assert!(!matches_fully("testing", "test"));
    assert!(matches_partly("a test here", "test"));
    assert!(!matches_partly("toast", "test"));
    assert!(matches_fully("ab", "a|ab"));
    assert!(matches_fully("axc", "a.c"));
    assert!(!matches_fully("a\nc", "a.c"));
    assert!(!matches_fully("a\rc", "a.c"));
    assert!(matches_fully("a\u{2028}c", "a.c"));
    assert!(matches_fully("a\rc", "a[\\s\\S]c"));
    assert!(matches_fully("a.c", "a\\.c"));
    assert!(!matches_fully("axc", "a\\.c"));
    assert!(!matches_partly("a\r\nb", "a.+b"));
    assert!(matches_partly("xx a1b yy", "a.b"));
    assert!(matches_fully("", ""));
    assert!(matches_partly("anything", ""));
}

#[test]
fn a_pattern_that_is_not_valid_matches_nothing() {
    assert!(!matches_fully("(", "("));
    assert!(!matches_partly("(", "("));
    assert!(!matches_fully("a", "[a"));
    assert!(!matches_partly("aaa", "a{2,1}"));
    assert!(!matches_partly("a", "*a"));
}

#[test]
fn outcome_of_a_search() {
    assert!(match_outcome(Some(true)));
    assert!(!match_outcome(Some(false)));
    assert!(!match_outcome(None));
}
