//! Queries that are refused, each with its error and the place of it.

use jpp_core::lexer::{Lexer, LexerError};
use jpp_core::parser::{ParseError, Parser};

fn lex_error(text: &str) -> LexerError {
    Lexer::new(text).tokenize().unwrap_err()
}

fn parse_error(text: &str) -> ParseError {
    Parser::parse(text).unwrap_err()
}

fn refused(text: &str, message: &str, position: usize) {
    let error = parse_error(text);
    assert_eq!((error.message.as_str(), error.position), (message, position), "query {text}");
}

#[test]
fn queries_that_must_fail() {
    let queries = [
        " $",
        "$ ",
        "$. foo",
        "$..  foo",
        "$[? length (@)>0]",
        "$[?@[*] == 1]",
        "$[?@.a == @.b[*]]",
        "$[?match(@.x,\"a\") == true]",
        "$[?count(@.x)]",
        "$[?42]",
        "$[?1 && @.a]",
        "$[?unknown(@)]",
        "$[01]",
        "$[-0]",
        "$[1.5]",
    ];
    for q in queries {
        assert!(Parser::parse(q).is_err(), "query {q}");
    }
}

#[test]
fn whitespace_at_the_ends() {
    refused(" $", "leading whitespace is not allowed", 0);
    refused("\r$", "leading whitespace is not allowed", 0);
    refused("$ ", "trailing whitespace is not allowed", 1);
    refused("$.é\n", "trailing whitespace is not allowed", 4);
    assert!(Parser::parse("$").is_ok());
    assert!(Parser::parse("$[ 'a' , 1 ]").is_ok());
}

#[test]
fn whitespace_inside() {
    refused("$. foo", "whitespace not allowed after '.'", 3);
    refused("$..  foo", "whitespace not allowed after '..'", 5);
    refused("$.", "expected identifier or wildcard after '.'", 2);
    refused("$[?@. a]", "whitespace not allowed after '.'", 6);
    refused(
        "$[? length (@)>0]",
        "whitespace not allowed between function name and '('",
        11,
    );
    assert!(Parser::parse("$[?length(@) > 0]").is_ok());
    assert!(Parser::parse("$[? length( @ ) > 0 ]").is_ok());
}

#[test]
fn lexical_errors_surface_at_their_offset() {
    refused("$[01]", "leading zeros not allowed", 2);
    refused("$[-0]", "-0 is not allowed", 2);
    refused("$[?@.a = 1]", "expected '==' but found single '='", 7);
    refused("$.a#", "unexpected character: #", 3);
}

#[test]
fn start_of_a_query() {
    refused("", "JSONPath must start with '$'", 0);
    refused("a", "JSONPath must start with '$'", 0);
    refused("@.a", "JSONPath must start with '$'", 0);
    refused("$$", "unexpected token", 1);
    refused("$a", "unexpected token", 1);
}

#[test]
fn segments_and_selectors() {
    refused("$.1", "expected identifier or wildcard after '.'", 2);
    refused("$..", "expected identifier or wildcard after '.'", 3);
    refused("$[", "unexpected end of input in selector", 2);
    refused("$[]", "unexpected token in selector", 2);
    refused("$['a'", "unclosed bracket", 5);
    refused("$['a' 'b']", "expected ',' or ']'", 6);
    refused("$[a]", "unexpected token in selector", 2);
    refused("$['a',]", "unexpected token in selector", 6);
}

#[test]
fn indices_and_slices() {
    refused("$[1.5]", "index must be an integer, not a decimal", 2);
    refused("$[1e2]", "index must be an integer, not a decimal", 2);
    refused("$[1:2.0]", "index must be an integer, not a decimal", 4);
    refused(
        "$[9007199254740992]",
        "index out of range (must be between -(2^53-1) and 2^53-1)",
        2,
    );
    refused(
        "$[-9007199254740992]",
        "index out of range (must be between -(2^53-1) and 2^53-1)",
        2,
    );
    refused(
        "$[::123456789012345678901234567890]",
        "index out of range (must be between -(2^53-1) and 2^53-1)",
        4,
    );
    assert!(Parser::parse("$[9007199254740991]").is_ok());
    assert!(Parser::parse("$[-9007199254740991]").is_ok());
    assert!(Parser::parse("$[9007199254740991:-9007199254740991:9007199254740991]").is_ok());
    assert!(Parser::parse("$[:]").is_ok());
    assert!(Parser::parse("$[::]").is_ok());
}

#[test]
fn filters() {
    refused("$[?42]", "filter expression cannot be a literal alone", 5);
    refused("$[?'a']", "filter expression cannot be a literal alone", 6);
    refused("$[?@[?true]]", "filter expression cannot be a literal alone", 10);
    refused("$[?count(@.x)]", "function 'count' returns a value that must be compared", 13);
    refused("$[?@[?value(@)]]", "function 'value' returns a value that must be compared", 14);
    refused("$[?1 && @.a]", "literal cannot be used as operand of logical operator", 5);
    refused("$[?@.a || null]", "literal cannot be used as operand of logical operator", 7);
    refused("$[?@[*] == 1]", "non-singular query not allowed in comparison", 8);
    refused("$[?@.a == @.b[*]]", "non-singular query not allowed in comparison", 7);
    refused("$[?@..a == 1]", "non-singular query not allowed in comparison", 8);
    refused("$[?@[0, 1] == 1]", "non-singular query not allowed in comparison", 11);
    refused("$[?@[1:2] == 1]", "non-singular query not allowed in comparison", 10);
    refused("$[?(@.a && @.b) == true]", "non-singular query not allowed in comparison", 16);
    refused(
        "$[?match(@.x,\"a\") == true]",
        "function 'match' returns LogicalType and cannot be compared",
        18,
    );
    refused(
        "$[?1 == search(@.x,\"a\")]",
        "function 'search' returns LogicalType and cannot be compared",
        5,
    );
    refused("$[?(@.a]", "expected ')' after expression", 7);
    refused("$[?@.a ==]", "unexpected token in expression", 9);
    refused("$[?@.a ==", "unexpected end of input in expression", 9);
    refused("$[?foo]", "unexpected identifier 'foo' in expression", 6);
    refused("$[?!]", "unexpected token in expression", 4);
}

#[test]
fn function_calls() {
    refused("$[?unknown(@)]", "unknown function 'unknown'", 10);
    refused("$[?count()]", "function 'count' requires exactly 1 argument", 8);
    refused("$[?count(@.a, @.b) == 1]", "function 'count' requires exactly 1 argument", 8);
    refused("$[?count(1) == 1]", "function 'count' requires a query argument (NodesType)", 8);
    refused("$[?length(@.a, 1) == 1]", "function 'length' requires exactly 1 argument", 9);
    refused(
        "$[?length(@.*) == 1]",
        "function 'length' requires a singular query or literal argument",
        9,
    );
    refused("$[?match(@.a)]", "function 'match' requires exactly 2 arguments", 8);
    refused(
        "$[?match(@.a, @..b)]",
        "function 'match' second argument must be a singular query or literal",
        8,
    );
    refused("$[?search(@.a)]", "function 'search' requires exactly 2 arguments", 9);
    refused(
        "$[?search(@.*, 'a')]",
        "function 'search' first argument must be a singular query or literal",
        9,
    );
    refused(
        "$[?search('a', @.*)]",
        "function 'search' second argument must be a singular query or literal",
        9,
    );
    refused("$[?value() == 1]", "function 'value' requires exactly 1 argument", 8);
    refused("$[?value('a') == 1]", "function 'value' requires a query argument (NodesType)", 8);
    refused("$[?count(@.a == 1]", "expected ')' after function arguments", 17);
    assert!(Parser::parse("$[?value(@..a) == 1]").is_ok());
    assert!(Parser::parse("$[?count(@.*) == length(value(@.a))]").is_ok());
    assert!(Parser::parse("$[?match(value(@.a), 'x') && !search(@.b, @.c)]").is_ok());
}

#[test]
fn errors_of_the_lexer() {
    let cases = [
        ("&", "expected '&&' but found single '&'", 0),
        ("$ |", "expected '||' but found single '|'", 2),
        ("=", "expected '==' but found single '='", 0),
        ("$%", "unexpected character: %", 1),
        ("é ~", "unexpected character: ~", 3),
        ("'abc", "unterminated string", 1),
        ("$['a\\", "unexpected end of input in escape sequence", 5),
        ("'a\\x'", "invalid escape sequence: \\x", 3),
        ("'a\tb'", "unescaped control character", 2),
        ("'\\u12G4'", "invalid unicode escape: expected 4 hex digits", 6),
        ("'\\u12", "invalid unicode escape: expected 4 hex digits", 5),
        ("'\\uD83Dx'", "invalid surrogate pair", 8),
        ("'\\uD83D\\n'", "invalid surrogate pair", 9),
        ("'\\uD83D\\u0041'", "invalid low surrogate", 13),
        ("'\\uDE00'", "invalid unicode code point", 7),
        ("-", "invalid number", 0),
        ("-a", "invalid number", 0),
        ("-.5", "invalid number", 0),
        ("01", "leading zeros not allowed", 0),
        ("-007", "leading zeros not allowed", 0),
        ("1e", "invalid exponent in number", 0),
        ("1e+", "invalid exponent in number", 0),
        ("  2.5E-x", "invalid exponent in number", 2),
        ("-0", "-0 is not allowed", 0),
    ];
    for (text, message, position) in cases {
        let error = lex_error(text);
        assert_eq!((error.message.as_str(), error.position), (message, position), "text {text}");
    }
}

#[test]
fn error_texts() {
    assert_eq!(lex_error("$ &").to_text(), "at position 2: expected '&&' but found single '&'");
    assert_eq!(parse_error("$[12345").to_text(), "at position 7, unclosed bracket");
}

#[test]
fn errors_past_the_last_token_stand_at_the_end_of_the_text() {
    refused("$.store..", "expected identifier or wildcard after '.'", 9);
    refused("$['long name'", "unclosed bracket", 13);
    refused("$[?@.name == 'é'", "unclosed bracket", 17);
    refused("$[?count(@.a", "expected ')' after function arguments", 12);
    refused("$[?length(", "unexpected end of input in expression", 10);
    refused("$[?(@.abc", "expected ')' after expression", 9);
    refused("$[1:", "unclosed bracket", 4);
    refused("$[?!", "unexpected end of input in expression", 4);
    refused("$[?@.a &&", "unexpected end of input in expression", 9);
    refused("$[?true", "filter expression cannot be a literal alone", 7);
    refused("$[?foo", "unexpected identifier 'foo' in expression", 6);
}

#[test]
fn exponents_of_any_size_are_read() {
    assert!(Lexer::new("1e1000000000000000000").tokenize().is_ok());
    assert!(Lexer::new("-2.5E-99999999999999999999999999").tokenize().is_ok());
    assert!(Parser::parse("$[?@.a == 1e99999999999999999999]").is_ok());
    assert!(Parser::parse("$[?@.a < 1e-99999999999999999999]").is_ok());
    refused("$[1e99999999999999999999]", "index must be an integer, not a decimal", 2);
}
