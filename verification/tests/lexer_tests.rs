//! Tokens of query texts.

use jpp_core::lexer::{parse_number, Lexer, Token, TokenKind};
use jpp_core::number::Number;

/// The number that the double `value` holds.
fn number(value: f64) -> Number {
    parse_number(&format!("{}", value)).unwrap()
}

fn kinds(tokens: &[Token]) -> Vec<&TokenKind> {
    tokens.iter().map(|t| &t.kind).collect()
}

#[test]
fn test_basic_tokens() {
    let tokens = Lexer::new("$.foo").tokenize().unwrap();
    assert_eq!(
        kinds(&tokens),
        vec![
            &TokenKind::Root,
            &TokenKind::Dot,
            &TokenKind::Ident("foo".to_string())
        ]
    );
}

#[test]
fn test_bracket_notation() {
    let tokens = Lexer::new("$['foo']").tokenize().unwrap();
    assert_eq!(
        kinds(&tokens),
        vec![
            &TokenKind::Root,
            &TokenKind::BracketOpen,
            &TokenKind::String("foo".to_string()),
            &TokenKind::BracketClose
        ]
    );
}

#[test]
fn lexer_test_array_index() {
    let tokens = Lexer::new("$[0]").tokenize().unwrap();
    assert_eq!(
        kinds(&tokens),
        vec![
            &TokenKind::Root,
            &TokenKind::BracketOpen,
            &TokenKind::Number(number(0.0), false),
            &TokenKind::BracketClose
        ]
    );
}

#[test]
fn lexer_test_negative_index() {
    let tokens = Lexer::new("$[-1]").tokenize().unwrap();
    assert_eq!(
        kinds(&tokens),
        vec![
            &TokenKind::Root,
            &TokenKind::BracketOpen,
            &TokenKind::Number(number(-1.0), false),
            &TokenKind::BracketClose
        ]
    );
}

#[test]
fn test_wildcard() {
    let tokens = Lexer::new("$[*]").tokenize().unwrap();
    assert_eq!(
        kinds(&tokens),
        vec![
            &TokenKind::Root,
            &TokenKind::BracketOpen,
            &TokenKind::Wildcard,
            &TokenKind::BracketClose
        ]
    );
}

#[test]
fn lexer_test_descendant() {
    let tokens = Lexer::new("$..foo").tokenize().unwrap();
    assert_eq!(
        kinds(&tokens),
        vec![
            &TokenKind::Root,
            &TokenKind::DotDot,
            &TokenKind::Ident("foo".to_string())
        ]
    );
}

#[test]
fn test_token_positions() {
    let tokens = Lexer::new("$.foo").tokenize().unwrap();
    assert_eq!(tokens[0].position, 0); // $
    assert_eq!(tokens[1].position, 1); // .
    assert_eq!(tokens[2].position, 2); // foo
}

#[test]
fn test_current_node() {
    let tokens = Lexer::new("@.price").tokenize().unwrap();
    assert_eq!(
        kinds(&tokens),
        vec![
            &TokenKind::At,
            &TokenKind::Dot,
            &TokenKind::Ident("price".to_string())
        ]
    );
}

#[test]
fn test_filter_indicator() {
    let tokens = Lexer::new("$[?@.price]").tokenize().unwrap();
    assert_eq!(
        kinds(&tokens),
        vec![
            &TokenKind::Root,
            &TokenKind::BracketOpen,
            &TokenKind::Question,
            &TokenKind::At,
            &TokenKind::Dot,
            &TokenKind::Ident("price".to_string()),
            &TokenKind::BracketClose
        ]
    );
}

#[test]
fn test_comparison_operators() {
    let tokens = Lexer::new("< > <= >= == !=").tokenize().unwrap();
    assert_eq!(
        kinds(&tokens),
        vec![
            &TokenKind::LessThan,
            &TokenKind::GreaterThan,
            &TokenKind::LessEq,
            &TokenKind::GreaterEq,
            &TokenKind::Equal,
            &TokenKind::NotEqual
        ]
    );
}

#[test]
fn test_logical_operators() {
    let tokens = Lexer::new("&& || !").tokenize().unwrap();
    assert_eq!(
        kinds(&tokens),
        vec![&TokenKind::And, &TokenKind::Or, &TokenKind::Not]
    );
}

#[test]
fn test_parentheses() {
    let tokens = Lexer::new("(@.a && @.b)").tokenize().unwrap();
    assert_eq!(
        kinds(&tokens),
        vec![
            &TokenKind::ParenOpen,
            &TokenKind::At,
            &TokenKind::Dot,
            &TokenKind::Ident("a".to_string()),
            &TokenKind::And,
            &TokenKind::At,
            &TokenKind::Dot,
            &TokenKind::Ident("b".to_string()),
            &TokenKind::ParenClose
        ]
    );
}

#[test]
fn test_keywords() {
    let tokens = Lexer::new("true false null").tokenize().unwrap();
    assert_eq!(
        kinds(&tokens),
        vec![&TokenKind::True, &TokenKind::False, &TokenKind::Null]
    );
}

#[test]
fn test_filter_expression() {
    let tokens = Lexer::new("$[?@.price < 10]").tokenize().unwrap();
    assert_eq!(
        kinds(&tokens),
        vec![
            &TokenKind::Root,
            &TokenKind::BracketOpen,
            &TokenKind::Question,
            &TokenKind::At,
            &TokenKind::Dot,
            &TokenKind::Ident("price".to_string()),
            &TokenKind::LessThan,
            &TokenKind::Number(number(10.0), false),
            &TokenKind::BracketClose
        ]
    );
}

#[test]
fn test_complex_filter() {
    let tokens = Lexer::new("$[?@.price >= 10 && @.available == true]")
        .tokenize()
        .unwrap();
    assert_eq!(
        kinds(&tokens),
        vec![
            &TokenKind::Root,
            &TokenKind::BracketOpen,
            &TokenKind::Question,
            &TokenKind::At,
            &TokenKind::Dot,
            &TokenKind::Ident("price".to_string()),
            &TokenKind::GreaterEq,
            &TokenKind::Number(number(10.0), false),
            &TokenKind::And,
            &TokenKind::At,
            &TokenKind::Dot,
            &TokenKind::Ident("available".to_string()),
            &TokenKind::Equal,
            &TokenKind::True,
            &TokenKind::BracketClose
        ]
    );
}

#[test]
fn test_invalid_single_ampersand() {
    let result = Lexer::new("&").tokenize();
    assert!(result.is_err());
    assert!(result.unwrap_err().message.contains("expected '&&'"));
}

#[test]
fn test_invalid_single_pipe() {
    let result = Lexer::new("|").tokenize();
    assert!(result.is_err());
    assert!(result.unwrap_err().message.contains("expected '||'"));
}

#[test]
fn test_invalid_single_equals() {
    let result = Lexer::new("=").tokenize();
    assert!(result.is_err());
    assert!(result.unwrap_err().message.contains("expected '=='"));
}

// ========== Floating-Point Number Tests ==========

#[test]
fn test_float_decimal() {
    let tokens = Lexer::new("1.5").tokenize().unwrap();
    assert_eq!(kinds(&tokens), vec![&TokenKind::Number(number(1.5), true)]);
}

#[test]
fn test_float_multiple_decimals() {
    let tokens = Lexer::new("3.12345").tokenize().unwrap();
    assert_eq!(kinds(&tokens), vec![&TokenKind::Number(number(3.12345), true)]);
}

#[test]
fn test_float_exponent() {
    let tokens = Lexer::new("1e10").tokenize().unwrap();
    assert_eq!(kinds(&tokens), vec![&TokenKind::Number(number(1e10), true)]);
}

#[test]
fn test_float_exponent_uppercase() {
    let tokens = Lexer::new("1E10").tokenize().unwrap();
    assert_eq!(kinds(&tokens), vec![&TokenKind::Number(number(1e10), true)]);
}

#[test]
fn test_float_exponent_negative() {
    let tokens = Lexer::new("1e-3").tokenize().unwrap();
    assert_eq!(kinds(&tokens), vec![&TokenKind::Number(number(1e-3), true)]);
}

#[test]
fn test_float_exponent_positive() {
    let tokens = Lexer::new("1e+3").tokenize().unwrap();
    assert_eq!(kinds(&tokens), vec![&TokenKind::Number(number(1e3), true)]);
}

#[test]
fn test_float_full() {
    let tokens = Lexer::new("1.5e-3").tokenize().unwrap();
    assert_eq!(kinds(&tokens), vec![&TokenKind::Number(number(1.5e-3), true)]);
}

#[test]
fn test_negative_float() {
    let tokens = Lexer::new("-1.5").tokenize().unwrap();
    assert_eq!(kinds(&tokens), vec![&TokenKind::Number(number(-1.5), true)]);
}

// ========== Unicode Identifier Tests ==========

#[test]
fn test_unicode_emoji_identifier() {
    let tokens = Lexer::new("$.☺").tokenize().unwrap();
    assert_eq!(
        kinds(&tokens),
        vec![
            &TokenKind::Root,
            &TokenKind::Dot,
            &TokenKind::Ident("☺".to_string())
        ]
    );
}

#[test]
fn test_unicode_japanese_identifier() {
    let tokens = Lexer::new("$.日本語").tokenize().unwrap();
    assert_eq!(
        kinds(&tokens),
        vec![
            &TokenKind::Root,
            &TokenKind::Dot,
            &TokenKind::Ident("日本語".to_string())
        ]
    );
}

#[test]
fn test_unicode_accented_identifier() {
    let tokens = Lexer::new("$.émoji").tokenize().unwrap();
    assert_eq!(
        kinds(&tokens),
        vec![
            &TokenKind::Root,
            &TokenKind::Dot,
            &TokenKind::Ident("émoji".to_string())
        ]
    );
}

#[test]
fn test_unicode_mixed_identifier() {
    let tokens = Lexer::new("$.hello世界123").tokenize().unwrap();
    assert_eq!(
        kinds(&tokens),
        vec![
            &TokenKind::Root,
            &TokenKind::Dot,
            &TokenKind::Ident("hello世界123".to_string())
        ]
    );
}

// ========== Names, strings, numbers, offsets ==========

fn lexed(text: &str) -> Vec<TokenKind> {
    Lexer::new(text).tokenize().unwrap().into_iter().map(|t| t.kind).collect()
}

fn string(text: &str) -> TokenKind {
    TokenKind::String(text.to_string())
}

#[test]
fn maximal_munch() {
    assert_eq!(
        lexed("...<===>=!===!&&||"),
        vec![
            TokenKind::DotDot,
            TokenKind::Dot,
            TokenKind::LessEq,
            TokenKind::Equal,
            TokenKind::GreaterEq,
            TokenKind::NotEqual,
            TokenKind::Equal,
            TokenKind::Not,
            TokenKind::And,
            TokenKind::Or
        ]
    );
}

#[test]
fn whitespace_between_tokens_is_skipped() {
    assert_eq!(lexed(" \t\r\n$ \n . \t"), vec![TokenKind::Root, TokenKind::Dot]);
    assert_eq!(lexed(""), Vec::<TokenKind>::new());
    assert_eq!(lexed("  "), Vec::<TokenKind>::new());
}

#[test]
fn names_and_keywords() {
    assert_eq!(
        lexed("_a1 truex true nullify null falsey false A"),
        vec![
            TokenKind::Ident("_a1".to_string()),
            TokenKind::Ident("truex".to_string()),
            TokenKind::True,
            TokenKind::Ident("nullify".to_string()),
            TokenKind::Null,
            TokenKind::Ident("falsey".to_string()),
            TokenKind::False,
            TokenKind::Ident("A".to_string()),
        ]
    );
    assert_eq!(lexed("\u{80}\u{D7FF}\u{E000}\u{10FFFF}").len(), 1);
    assert!(Lexer::new("\u{7F}").tokenize().is_err());
}

#[test]
fn string_escapes() {
    assert_eq!(
        lexed(r#"'\n\t\r\b\f\\\/\'\"' "it's" 'say "x"'"#),
        vec![string("\n\t\r\u{8}\u{c}\\/'\""), string("it's"), string("say \"x\"")]
    );
    assert_eq!(lexed(r#"'Aé☺'"#), vec![string("Aé☺")]);
    assert_eq!(lexed(r#"'😀'"#), vec![string("😀")]);
    assert_eq!(lexed(r#"'𐀀' '􏿿'"#), vec![string("\u{10000}"), string("\u{10FFFF}")]);
    assert_eq!(lexed("''"), vec![string("")]);
    assert_eq!(lexed("'\u{7f} \u{20}'"), vec![string("\u{7f} \u{20}")]);
}

#[test]
fn numbers() {
    let cases: [(&str, f64, bool); 12] = [
        ("0", 0.0, false),
        ("7", 7.0, false),
        ("-12", -12.0, false),
        ("1200", 1200.0, false),
        ("0.5", 0.5, true),
        ("-0.5", -0.5, true),
        ("-0e1", 0.0, true),
        ("-0.0", 0.0, true),
        ("1.50", 1.5, true),
        ("12e2", 1200.0, true),
        ("1E+2", 100.0, true),
        ("25e-1", 2.5, true),
    ];
    for (text, value, fractional) in cases {
        assert_eq!(lexed(text), vec![TokenKind::Number(number(value), fractional)], "{text}");
    }
    // a dot that no digit follows is not part of the number
    assert_eq!(
        lexed("1..2"),
        vec![
            TokenKind::Number(number(1.0), false),
            TokenKind::DotDot,
            TokenKind::Number(number(2.0), false)
        ]
    );
    assert_eq!(
        lexed("1.e"),
        vec![
            TokenKind::Number(number(1.0), false),
            TokenKind::Dot,
            TokenKind::Ident("e".to_string())
        ]
    );
}

#[test]
fn positions_are_byte_offsets() {
    let tokens = Lexer::new("$.é['日本'] .😀x").tokenize().unwrap();
    let positions: Vec<usize> = tokens.iter().map(|t| t.position).collect();
    assert_eq!(positions, vec![0, 1, 2, 4, 5, 13, 15, 16]);
}
