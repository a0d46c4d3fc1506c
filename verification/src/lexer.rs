//! Lexer for JSONPath queries: from a text to its tokens, each with the byte
//! offset at which it starts.

use crate::number::{is_numeral, numeral_value, Decimal, Number};
use crate::text::{byte_length, byte_offset, chars_of, decimal_text, lemma_byte_offset_monotonic,
    push_char, push_decimal, same_text, string_of};
use vstd::string::StringExecFns;
use vstd::prelude::*;

verus! {

/// Token types for JSONPath.
#[derive(Debug, PartialEq)]
pub enum TokenKind {
    /// Root identifier `$`
    Root,
    /// Current node `@`
    At,
    /// Single dot `.`
    Dot,
    /// Double dot `..`
    DotDot,
    /// Opening bracket `[`
    BracketOpen,
    /// Closing bracket `]`
    BracketClose,
    /// Opening parenthesis `(`
    ParenOpen,
    /// Closing parenthesis `)`
    ParenClose,
    /// Wildcard `*`
    Wildcard,
    /// Colon `:`
    Colon,
    /// Comma `,`
    Comma,
    /// Question mark `?` (filter indicator)
    Question,
    /// Less than `<`
    LessThan,
    /// Greater than `>`
    GreaterThan,
    /// Less than or equal `<=`
    LessEq,
    /// Greater than or equal `>=`
    GreaterEq,
    /// Equal `==`
    Equal,
    /// Not equal `!=`
    NotEqual,
    /// Logical AND `&&`
    And,
    /// Logical OR `||`
    Or,
    /// Logical NOT `!`
    Not,
    /// Boolean true literal
    True,
    /// Boolean false literal
    False,
    /// Null literal
    Null,
    /// Identifier (unquoted key name)
    Ident(String),
    /// String literal (single or double quoted), decoded
    String(String),
    /// Number, and whether it was written with a fraction or an exponent
    Number(Number, bool),
}

/// Token with position information.
#[derive(Debug, PartialEq)]
pub struct Token {
    pub kind: TokenKind,
    /// Byte offset of the first character of the token.
    pub position: usize,
}

/// Lexer error.
#[derive(Debug, PartialEq)]
pub struct LexerError {
    pub message: String,
    /// Byte offset at which lexing stopped.
    pub position: usize,
}

/// Mathematical model of a [`TokenKind`].
pub ghost enum TokenKindView {
    Root,
    At,
    Dot,
    DotDot,
    BracketOpen,
    BracketClose,
    ParenOpen,
    ParenClose,
    Wildcard,
    Colon,
    Comma,
    Question,
    LessThan,
    GreaterThan,
    LessEq,
    GreaterEq,
    Equal,
    NotEqual,
    And,
    Or,
    Not,
    True,
    False,
    Null,
    Ident(Seq<char>),
    String(Seq<char>),
    Number(Decimal, bool),
}

/// Mathematical model of a [`Token`].
pub ghost struct TokenView {
    pub kind: TokenKindView,
    pub position: nat,
}

/// Mathematical model of a [`LexerError`].
pub ghost struct LexerErrorView {
    pub message: Seq<char>,
    pub position: nat,
}

impl View for TokenKind {
    type V = TokenKindView;

    open spec fn view(&self) -> TokenKindView {
        match self {
            TokenKind::Root => TokenKindView::Root,
            TokenKind::At => TokenKindView::At,
            TokenKind::Dot => TokenKindView::Dot,
            TokenKind::DotDot => TokenKindView::DotDot,
            TokenKind::BracketOpen => TokenKindView::BracketOpen,
            TokenKind::BracketClose => TokenKindView::BracketClose,
            TokenKind::ParenOpen => TokenKindView::ParenOpen,
            TokenKind::ParenClose => TokenKindView::ParenClose,
            TokenKind::Wildcard => TokenKindView::Wildcard,
            TokenKind::Colon => TokenKindView::Colon,
            TokenKind::Comma => TokenKindView::Comma,
            TokenKind::Question => TokenKindView::Question,
            TokenKind::LessThan => TokenKindView::LessThan,
            TokenKind::GreaterThan => TokenKindView::GreaterThan,
            TokenKind::LessEq => TokenKindView::LessEq,
            TokenKind::GreaterEq => TokenKindView::GreaterEq,
            TokenKind::Equal => TokenKindView::Equal,
            TokenKind::NotEqual => TokenKindView::NotEqual,
            TokenKind::And => TokenKindView::And,
            TokenKind::Or => TokenKindView::Or,
            TokenKind::Not => TokenKindView::Not,
            TokenKind::True => TokenKindView::True,
            TokenKind::False => TokenKindView::False,
            TokenKind::Null => TokenKindView::Null,
            TokenKind::Ident(name) => TokenKindView::Ident(name@),
            TokenKind::String(value) => TokenKindView::String(value@),
            TokenKind::Number(value, fractional) => TokenKindView::Number(value@, *fractional),
        }
    }
}

impl View for Token {
    type V = TokenView;

    open spec fn view(&self) -> TokenView {
        TokenView { kind: self.kind@, position: self.position as nat }
    }
}

impl View for LexerError {
    type V = LexerErrorView;

    open spec fn view(&self) -> LexerErrorView {
        LexerErrorView { message: self.message@, position: self.position as nat }
    }
}

impl LexerErrorView {
    /// The error as a line of text: the position, then the message.
    pub open spec fn text(self) -> Seq<char> {
        "at position "@ + decimal_text(self.position) + ": "@ + self.message
    }
}

impl LexerError {
    /// The error as a line of text.
    pub fn to_text(&self) -> (r: String)
        ensures
            r@ == self@.text(),
    {
        let mut out: String = "at position ".to_owned();
        push_decimal(&mut out, self.position);
        out.append(": ");
        out.append(self.message.as_str());
        out
    }
}

/// The views of the tokens of `tokens`, in order.
pub open spec fn token_views(tokens: Seq<Token>) -> Seq<TokenView> {
    Seq::new(tokens.len(), |i: int| tokens[i]@)
}

/// Whitespace that may stand between tokens: space, tab, line feed, carriage return.
pub open spec fn is_blank(c: char) -> bool {
    c == ' ' || c == '\t' || c == '\n' || c == '\r'
}

pub open spec fn is_digit(c: char) -> bool {
    0x30 <= c as u32 <= 0x39
}

/// First character of a name: an ASCII letter, `_`, or any character from
/// U+0080 on.
pub open spec fn is_name_first(c: char) -> bool {
    let code = c as u32;
    ||| 0x41 <= code <= 0x5A
    ||| 0x61 <= code <= 0x7A
    ||| c == '_'
    ||| 0x80 <= code <= 0xD7FF
    ||| 0xE000 <= code <= 0x10FFFF
}

/// Character of a name: a first character or a digit.
pub open spec fn is_name_char(c: char) -> bool {
    is_name_first(c) || is_digit(c)
}

/// Value of a hexadecimal digit.
pub open spec fn hex_value(c: char) -> Option<u32> {
    let code = c as u32;
    if 0x30 <= code <= 0x39 {
        Some((code - 0x30) as u32)
    } else if 0x41 <= code <= 0x46 {
        Some((code - 0x41 + 10) as u32)
    } else if 0x61 <= code <= 0x66 {
        Some((code - 0x61 + 10) as u32)
    } else {
        None
    }
}

/// First index from `i` on that holds no blank.
pub open spec fn blanks_end(s: Seq<char>, i: int) -> int
    decreases s.len() - i,
{
    if 0 <= i < s.len() && is_blank(s[i]) {
        blanks_end(s, i + 1)
    } else {
        i
    }
}

/// First index from `i` on that holds no digit.
pub open spec fn digits_end(s: Seq<char>, i: int) -> int
    decreases s.len() - i,
{
    if 0 <= i < s.len() && is_digit(s[i]) {
        digits_end(s, i + 1)
    } else {
        i
    }
}

/// First index from `i` on that holds no name character.
pub open spec fn name_end(s: Seq<char>, i: int) -> int
    decreases s.len() - i,
{
    if 0 <= i < s.len() && is_name_char(s[i]) {
        name_end(s, i + 1)
    } else {
        i
    }
}

pub open spec fn digit_value(c: char) -> u8 {
    ((c as u32) - 0x30) as u8
}

/// The values of the digits `s[from..to]`.
pub open spec fn digit_values(s: Seq<char>, from: int, to: int) -> Seq<u8> {
    Seq::new((to - from) as nat, |k: int| digit_value(s[from + k]))
}

pub open spec fn lexer_error(message: Seq<char>, position: nat) -> LexerErrorView {
    LexerErrorView { message, position }
}

/// Reads the rest of the four hexadecimal digits of a `\u` escape that
/// starts at `i`, of which `k` are read and give `acc`.
pub open spec fn unicode_escape(s: Seq<char>, i: int, k: nat, acc: u32) -> Result<
    u32,
    LexerErrorView,
>
    decreases 4 - k,
{
    if k >= 4 {
        Ok(acc)
    } else if 0 <= i + k < s.len() && hex_value(s[i + k]) is Some && acc < 0x1000 {
        unicode_escape(s, i, k + 1, (acc * 16 + hex_value(s[i + k])->0) as u32)
    } else {
        Err(
            lexer_error(
                "invalid unicode escape: expected 4 hex digits"@,
                byte_offset(s, if i + k < s.len() { i + k + 1 } else { s.len() as int }),
            ),
        )
    }
}

pub open spec fn is_high_surrogate(code: u32) -> bool {
    0xD800 <= code <= 0xDBFF
}

pub open spec fn is_low_surrogate(code: u32) -> bool {
    0xDC00 <= code <= 0xDFFF
}

/// The code point that a surrogate pair stands for.
pub open spec fn combine_surrogates(high: u32, low: u32) -> u32 {
    (0x10000 + (high - 0xD800) * 0x400 + (low - 0xDC00)) as u32
}

/// Decodes the `\uXXXX` escape whose digits start at `i`, with the second
/// escape of a surrogate pair where the first is a high surrogate. Gives the
/// character and the index after the escape.
pub open spec fn unicode_char_at(s: Seq<char>, i: int) -> Result<(char, int), LexerErrorView> {
    match unicode_escape(s, i, 0, 0) {
        Err(e) => Err(e),
        Ok(code) => if is_high_surrogate(code) {
            if !(i + 4 < s.len() && s[i + 4] == '\\') {
                Err(
                    lexer_error(
                        "invalid surrogate pair"@,
                        byte_offset(s, if i + 4 < s.len() { i + 5 } else { s.len() as int }),
                    ),
                )
            } else if !(i + 5 < s.len() && s[i + 5] == 'u') {
                Err(
                    lexer_error(
                        "invalid surrogate pair"@,
                        byte_offset(s, if i + 5 < s.len() { i + 6 } else { s.len() as int }),
                    ),
                )
            } else {
                match unicode_escape(s, i + 6, 0, 0) {
                    Err(e) => Err(e),
                    Ok(low) => if is_low_surrogate(low) {
                        Ok((combine_surrogates(code, low) as char, i + 10))
                    } else {
                        Err(lexer_error("invalid low surrogate"@, byte_offset(s, i + 10)))
                    },
                }
            }
        } else if is_low_surrogate(code) {
            Err(lexer_error("invalid unicode code point"@, byte_offset(s, i + 4)))
        } else {
            Ok((code as char, i + 4))
        },
    }
}

/// The character that the escape letter `c` stands for, if it is one of the
/// single-letter escapes.
pub open spec fn simple_escape(c: char) -> Option<char> {
    if c == 'n' {
        Some('\n')
    } else if c == 't' {
        Some('\t')
    } else if c == 'r' {
        Some('\r')
    } else if c == '\\' {
        Some('\\')
    } else if c == '\'' {
        Some('\'')
    } else if c == '"' {
        Some('"')
    } else if c == 'b' {
        Some('\x08')
    } else if c == 'f' {
        Some('\x0C')
    } else if c == '/' {
        Some('/')
    } else {
        None
    }
}

/// Decodes the escape whose letter stands at `i`, just after the backslash.
pub open spec fn escape_at(s: Seq<char>, i: int) -> Result<(char, int), LexerErrorView> {
    if !(0 <= i < s.len()) {
        Err(
            lexer_error(
                "unexpected end of input in escape sequence"@,
                byte_offset(s, s.len() as int),
            ),
        )
    } else if s[i] == 'u' {
        unicode_char_at(s, i + 1)
    } else {
        match simple_escape(s[i]) {
            Some(c) => Ok((c, i + 1)),
            None => Err(
                lexer_error("invalid escape sequence: \\"@.push(s[i]), byte_offset(s, i)),
            ),
        }
    }
}

/// Reads a string literal from `i`, the index after the opening quote or
/// somewhere inside the literal with `acc` decoded so far, up to the closing
/// `quote`. Gives the decoded text and the index after the closing quote.
pub open spec fn scan_string(s: Seq<char>, i: int, quote: char, acc: Seq<char>, start: int)
    -> Result<(Seq<char>, int), LexerErrorView>
    decreases s.len() - i,
{
    if !(0 <= i < s.len()) {
        Err(lexer_error("unterminated string"@, byte_offset(s, start)))
    } else if s[i] == quote {
        Ok((acc, i + 1))
    } else if s[i] == '\\' {
        match escape_at(s, i + 1) {
            Err(e) => Err(e),
            Ok((c, next)) => if i < next <= s.len() {
                scan_string(s, next, quote, acc.push(c), start)
            } else {
                Ok((acc, i + 1))
            },
        }
    } else if s[i] as u32 <= 0x1F {
        Err(lexer_error("unescaped control character"@, byte_offset(s, i)))
    } else {
        scan_string(s, i + 1, quote, acc.push(s[i]), start)
    }
}

/// Largest exponent that a number is read with: an exponent that is
/// written larger counts as this one. Either way the number lies far outside
/// the range of doubles.
pub const MAX_WRITTEN_EXPONENT: u64 = 999_999_999_999_999_999;

/// Where the parts of the number that starts at `i` lie:
/// `-? int ( '.' digit+ )? ( [eE] [+-]? digit+ )?`.
pub ghost struct NumberShape {
    pub negative: bool,
    pub int_start: int,
    pub int_end: int,
    /// A dot follows the integer part, and a digit follows the dot.
    pub has_fraction: bool,
    pub fraction_end: int,
    pub has_exponent: bool,
    pub exponent_negative: bool,
    pub exponent_start: int,
    pub exponent_end: int,
}

pub open spec fn number_shape(s: Seq<char>, i: int) -> NumberShape {
    let negative = 0 <= i < s.len() && s[i] == '-';
    let int_start = if negative { i + 1 } else { i };
    let int_end = digits_end(s, int_start);
    let has_fraction = int_end + 1 < s.len() && s[int_end] == '.' && is_digit(s[int_end + 1]);
    let fraction_end = if has_fraction { digits_end(s, int_end + 1) } else { int_end };
    let has_exponent = fraction_end < s.len() && (s[fraction_end] == 'e' || s[fraction_end] == 'E');
    let exponent_signed = has_exponent && fraction_end + 1 < s.len() && (s[fraction_end + 1] == '+'
        || s[fraction_end + 1] == '-');
    let exponent_start = if exponent_signed { fraction_end + 2 } else { fraction_end + 1 };
    NumberShape {
        negative,
        int_start,
        int_end,
        has_fraction,
        fraction_end,
        has_exponent,
        exponent_negative: exponent_signed && s[fraction_end + 1] == '-',
        exponent_start,
        exponent_end: if has_exponent { digits_end(s, exponent_start) } else { fraction_end },
    }
}

/// `n`, or [`MAX_WRITTEN_EXPONENT`] if that is less.
pub open spec fn saturated(n: nat) -> nat {
    if n > MAX_WRITTEN_EXPONENT {
        MAX_WRITTEN_EXPONENT as nat
    } else {
        n
    }
}

impl NumberShape {
    /// The digits of the integer part and of the fraction.
    pub open spec fn digits(self, s: Seq<char>) -> Seq<u8> {
        digit_values(s, self.int_start, self.int_end) + self.fraction(s)
    }

    pub open spec fn fraction(self, s: Seq<char>) -> Seq<u8> {
        if self.has_fraction {
            digit_values(s, self.int_end + 1, self.fraction_end)
        } else {
            Seq::empty()
        }
    }

    /// The exponent as it is written, without its sign, and at most
    /// [`MAX_WRITTEN_EXPONENT`].
    pub open spec fn written(self, s: Seq<char>) -> nat {
        if self.has_exponent {
            saturated(numeral_value(digit_values(s, self.exponent_start, self.exponent_end)))
        } else {
            0
        }
    }

    /// The power of ten by which the digits are scaled.
    pub open spec fn exponent(self, s: Seq<char>) -> int {
        (if self.exponent_negative {
            -(self.written(s) as int)
        } else {
            self.written(s) as int
        }) - self.fraction(s).len()
    }
}

/// Reads the number that starts at `i`. Gives its value, whether it has a
/// fraction or an exponent, and the index after it.
pub open spec fn scan_number(s: Seq<char>, i: int) -> Result<(Decimal, bool, int), LexerErrorView> {
    let start = byte_offset(s, i);
    let shape = number_shape(s, i);
    if shape.int_end == shape.int_start {
        Err(lexer_error("invalid number"@, start))
    } else if shape.int_end - shape.int_start > 1 && s[shape.int_start] == '0' {
        Err(lexer_error("leading zeros not allowed"@, start))
    } else if shape.has_exponent && shape.exponent_end == shape.exponent_start {
        Err(lexer_error("invalid exponent in number"@, start))
    } else if shape.negative && !shape.has_fraction && !shape.has_exponent && s[shape.int_start]
        == '0' {
        Err(lexer_error("-0 is not allowed"@, start))
    } else {
        Ok(
            (
                Decimal::normalize(shape.negative, shape.digits(s), shape.exponent(s)),
                shape.has_fraction || shape.has_exponent,
                shape.exponent_end,
            ),
        )
    }
}

/// The keyword or identifier that the name `name` is.
pub open spec fn name_token(name: Seq<char>) -> TokenKindView {
    if name == "true"@ {
        TokenKindView::True
    } else if name == "false"@ {
        TokenKindView::False
    } else if name == "null"@ {
        TokenKindView::Null
    } else {
        TokenKindView::Ident(name)
    }
}

/// The token that starts at `i`, which holds no blank, and the index after it.
/// Punctuation and operators are read by maximal munch.
pub open spec fn token_at(s: Seq<char>, i: int) -> Result<(TokenKindView, int), LexerErrorView> {
    let c = s[i];
    let followed_by = |d: char| i + 1 < s.len() && s[i + 1] == d;
    if c == '$' {
        Ok((TokenKindView::Root, i + 1))
    } else if c == '@' {
        Ok((TokenKindView::At, i + 1))
    } else if c == '.' {
        if followed_by('.') {
            Ok((TokenKindView::DotDot, i + 2))
        } else {
            Ok((TokenKindView::Dot, i + 1))
        }
    } else if c == '[' {
        Ok((TokenKindView::BracketOpen, i + 1))
    } else if c == ']' {
        Ok((TokenKindView::BracketClose, i + 1))
    } else if c == '(' {
        Ok((TokenKindView::ParenOpen, i + 1))
    } else if c == ')' {
        Ok((TokenKindView::ParenClose, i + 1))
    } else if c == '*' {
        Ok((TokenKindView::Wildcard, i + 1))
    } else if c == ':' {
        Ok((TokenKindView::Colon, i + 1))
    } else if c == ',' {
        Ok((TokenKindView::Comma, i + 1))
    } else if c == '?' {
        Ok((TokenKindView::Question, i + 1))
    } else if c == '<' {
        if followed_by('=') {
            Ok((TokenKindView::LessEq, i + 2))
        } else {
            Ok((TokenKindView::LessThan, i + 1))
        }
    } else if c == '>' {
        if followed_by('=') {
            Ok((TokenKindView::GreaterEq, i + 2))
        } else {
            Ok((TokenKindView::GreaterThan, i + 1))
        }
    } else if c == '=' {
        if followed_by('=') {
            Ok((TokenKindView::Equal, i + 2))
        } else {
            Err(lexer_error("expected '==' but found single '='"@, byte_offset(s, i)))
        }
    } else if c == '!' {
        if followed_by('=') {
            Ok((TokenKindView::NotEqual, i + 2))
        } else {
            Ok((TokenKindView::Not, i + 1))
        }
    } else if c == '&' {
        if followed_by('&') {
            Ok((TokenKindView::And, i + 2))
        } else {
            Err(lexer_error("expected '&&' but found single '&'"@, byte_offset(s, i)))
        }
    } else if c == '|' {
        if followed_by('|') {
            Ok((TokenKindView::Or, i + 2))
        } else {
            Err(lexer_error("expected '||' but found single '|'"@, byte_offset(s, i)))
        }
    } else if c == '\'' || c == '"' {
        match scan_string(s, i + 1, c, Seq::empty(), i + 1) {
            Ok((value, next)) => Ok((TokenKindView::String(value), next)),
            Err(e) => Err(e),
        }
    } else if c == '-' || is_digit(c) {
        match scan_number(s, i) {
            Ok((value, fractional, next)) => Ok((TokenKindView::Number(value, fractional), next)),
            Err(e) => Err(e),
        }
    } else if is_name_first(c) {
        let end = name_end(s, i);
        Ok((name_token(s.subrange(i, end)), end))
    } else {
        Err(lexer_error("unexpected character: "@.push(c), byte_offset(s, i)))
    }
}

/// The tokens of `s` from index `i` on, after the tokens `acc` read before,
/// or the first error.
pub open spec fn lex_from(s: Seq<char>, i: int, acc: Seq<TokenView>) -> Result<
    Seq<TokenView>,
    LexerErrorView,
>
    decreases s.len() - i,
{
    let at = blanks_end(s, i);
    if !(0 <= at < s.len()) {
        Ok(acc)
    } else {
        match token_at(s, at) {
            Err(e) => Err(e),
            Ok((kind, next)) => if i <= at < next <= s.len() {
                lex_from(s, next, acc.push(TokenView { kind, position: byte_offset(s, at) }))
            } else {
                Ok(acc)
            },
        }
    }
}

/// The tokens of the text `s`, or the first error: what [`Lexer::tokenize`] returns.
pub open spec fn lex(s: Seq<char>) -> Result<Seq<TokenView>, LexerErrorView> {
    lex_from(s, 0, Seq::empty())
}

/// Check if character is valid as the start of an identifier.
pub fn is_ident_start(ch: char) -> (r: bool)
    ensures
        r == is_name_first(ch),
{
    let code: u32 = ch as u32;
    (0x41 <= code && code <= 0x5A) || (0x61 <= code && code <= 0x7A) || ch == '_' || (0x80 <= code
        && code <= 0xD7FF) || (0xE000 <= code && code <= 0x10FFFF)
}

/// Check if character is valid within an identifier.
pub fn is_ident_char(ch: char) -> (r: bool)
    ensures
        r == is_name_char(ch),
{
    is_ident_start(ch) || is_ascii_digit(ch)
}

fn is_ascii_digit(ch: char) -> (r: bool)
    ensures
        r == is_digit(ch),
{
    let code: u32 = ch as u32;
    0x30 <= code && code <= 0x39
}

fn is_whitespace(ch: char) -> (r: bool)
    ensures
        r == is_blank(ch),
{
    ch == ' ' || ch == '\t' || ch == '\n' || ch == '\r'
}

fn hex_digit(ch: char) -> (r: Option<u32>)
    ensures
        r == hex_value(ch),
{
    let code: u32 = ch as u32;
    if 0x30 <= code && code <= 0x39 {
        Some(code - 0x30)
    } else if 0x41 <= code && code <= 0x46 {
        Some(code - 0x41 + 10)
    } else if 0x61 <= code && code <= 0x66 {
        Some(code - 0x61 + 10)
    } else {
        None
    }
}

fn error_at(message: &str, position: usize) -> (r: LexerError)
    ensures
        r@ == lexer_error(message@, position as nat),
{
    LexerError { message: message.to_owned(), position }
}

fn error_with_char(message: &str, c: char, position: usize) -> (r: LexerError)
    ensures
        r@ == lexer_error(message@.push(c), position as nat),
{
    let mut text = message.to_owned();
    push_char(&mut text, c);
    LexerError { message: text, position }
}

/// The number that the numeral `digits` denotes, or
/// [`MAX_WRITTEN_EXPONENT`] if that is less.
fn written_exponent(digits: &Vec<u8>) -> (r: u64)
    requires
        is_numeral(digits@),
    ensures
        r == saturated(numeral_value(digits@)),
{
    let mut acc: u64 = 0;
    let mut i: usize = 0;
    while i < digits.len()
        invariant
            i <= digits.len(),
            is_numeral(digits@),
            acc == numeral_value(digits@.take(i as int)) <= MAX_WRITTEN_EXPONENT,
        decreases digits.len() - i,
    {
        assert(digits@.take(i + 1).drop_last() =~= digits@.take(i as int));
        acc = acc * 10 + digits[i] as u64;
        if acc > MAX_WRITTEN_EXPONENT {
            proof {
                crate::number::lemma_numeral_value_prefix(digits@, i + 1);
            }
            return MAX_WRITTEN_EXPONENT;
        }
        i += 1;
    }
    assert(digits@.take(digits.len() as int) =~= digits@);
    acc
}

/// Lexer for tokenizing JSONPath queries.
pub struct Lexer {
    chars: Vec<char>,
    index: usize,
    position: usize,
    length: usize,
}

impl Lexer {
    /// The text that the lexer reads.
    pub closed spec fn text(&self) -> Seq<char> {
        self.chars@
    }

    /// Index into the text of the next character to read.
    pub closed spec fn cursor(&self) -> int {
        self.index as int
    }

    /// The cursor lies within the text, and the byte offset kept beside it is
    /// that of the cursor.
    pub closed spec fn wf(&self) -> bool {
        &&& self.index <= self.chars.len()
        &&& self.position == byte_offset(self.chars@, self.index as int)
        &&& self.length == byte_offset(self.chars@, self.chars.len() as int)
    }

    pub fn new(input: &str) -> (r: Lexer)
        ensures
            r.wf(),
            r.text() == input@,
            r.cursor() == 0,
    {
        Lexer { chars: chars_of(input), index: 0, position: 0, length: byte_length(input) }
    }

    /// The first character of the text, if it has one.
    pub fn first(&self) -> (r: Option<char>)
        ensures
            self.text().len() > 0 ==> r == Some(self.text()[0]),
            self.text().len() == 0 ==> r is None,
    {
        if self.chars.len() > 0 {
            Some(self.chars[0])
        } else {
            None
        }
    }

    /// The last character of the text, if it has one.
    pub fn last(&self) -> (r: Option<char>)
        ensures
            self.text().len() > 0 ==> r == Some(self.text().last()),
            self.text().len() == 0 ==> r is None,
    {
        if self.chars.len() > 0 {
            Some(self.chars[self.chars.len() - 1])
        } else {
            None
        }
    }

    /// Byte offset of the end of the text.
    pub fn end_position(&self) -> (r: usize)
        requires
            self.wf(),
        ensures
            r == byte_offset(self.text(), self.text().len() as int),
    {
        self.length
    }

    /// Tokenize the entire input.
    pub fn tokenize(self) -> (r: Result<Vec<Token>, LexerError>)
        requires
            self.wf(),
        ensures
            match lex_from(self.text(), self.cursor(), Seq::empty()) {
                Ok(tokens) => r matches Ok(v) && token_views(v@) == tokens,
                Err(e) => r matches Err(x) && x@ == e,
            },
    {
        let mut lexer = self;
        let mut tokens: Vec<Token> = Vec::new();
        let ghost text = lexer.chars@;
        let ghost start = lexer.index as int;
        assert(token_views(tokens@) =~= Seq::empty());
        loop
            invariant
                lexer.wf(),
                lexer.chars@ == text,
                text == self.text(),
                start == self.cursor(),
                lex_from(text, start, Seq::empty()) == lex_from(
                    text,
                    lexer.index as int,
                    token_views(tokens@),
                ),
            decreases text.len() - lexer.index,
        {
            let ghost before = token_views(tokens@);
            match lexer.next_token() {
                Err(e) => {
                    return Err(e);
                },
                Ok(None) => {
                    return Ok(tokens);
                },
                Ok(Some(token)) => {
                    tokens.push(token);
                    assert(token_views(tokens@) =~= before.push(token@));
                },
            }
        }
    }

    fn peek(&self) -> (r: Option<char>)
        requires
            self.wf(),
        ensures
            self.index < self.chars.len() ==> r == Some(self.chars@[self.index as int]),
            self.index >= self.chars.len() ==> r is None,
    {
        if self.index < self.chars.len() {
            Some(self.chars[self.index])
        } else {
            None
        }
    }

    fn peek_is(&self, c: char) -> (r: bool)
        requires
            self.wf(),
        ensures
            r == (self.index < self.chars.len() && self.chars@[self.index as int] == c),
    {
        self.index < self.chars.len() && self.chars[self.index] == c
    }

    fn advance(&mut self) -> (r: Option<char>)
        requires
            old(self).wf(),
        ensures
            final(self).wf(),
            final(self).chars == old(self).chars,
            old(self).index < old(self).chars.len() ==> r == Some(
                old(self).chars@[old(self).index as int],
            ) && final(self).index == old(self).index + 1,
            old(self).index >= old(self).chars.len() ==> r is None
                && final(self).index == old(self).index,
    {
        if self.index < self.chars.len() {
            let ch: char = self.chars[self.index];
            proof {
                lemma_byte_offset_monotonic(
                    self.chars@,
                    self.index + 1,
                    self.chars.len() as int,
                );
            }
            let width: usize = if (ch as u32) < 0x80 {
                1
            } else if (ch as u32) < 0x800 {
                2
            } else if (ch as u32) < 0x10000 {
                3
            } else {
                4
            };
            self.index = self.index + 1;
            self.position = self.position + width;
            Some(ch)
        } else {
            None
        }
    }

    fn skip_whitespace(&mut self)
        requires
            old(self).wf(),
        ensures
            final(self).wf(),
            final(self).chars == old(self).chars,
            final(self).index == blanks_end(old(self).chars@, old(self).index as int),
            old(self).index <= final(self).index,
    {
        while self.index < self.chars.len() && is_whitespace(self.chars[self.index])
            invariant
                self.wf(),
                self.chars == old(self).chars,
                old(self).index <= self.index,
                blanks_end(old(self).chars@, old(self).index as int) == blanks_end(
                    self.chars@,
                    self.index as int,
                ),
            decreases self.chars.len() - self.index,
        {
            self.advance();
        }
    }

    /// Reads digits from the cursor on and appends their values to `digits`.
    fn read_digits(&mut self, digits: &mut Vec<u8>)
        requires
            old(self).wf(),
            is_numeral(old(digits)@),
        ensures
            final(self).wf(),
            final(self).chars == old(self).chars,
            final(self).index == digits_end(old(self).chars@, old(self).index as int),
            old(self).index <= final(self).index,
            is_numeral(final(digits)@),
            final(digits)@ == old(digits)@ + digit_values(
                old(self).chars@,
                old(self).index as int,
                final(self).index as int,
            ),
    {
        let ghost from = self.index as int;
        let ghost text = self.chars@;
        assert(digits@ =~= old(digits)@ + digit_values(text, from, from));
        while self.index < self.chars.len() && is_ascii_digit(self.chars[self.index])
            invariant
                self.wf(),
                self.chars@ == text,
                self.chars == old(self).chars,
                from <= self.index,
                from == old(self).index,
                is_numeral(digits@),
                digits_end(text, from) == digits_end(text, self.index as int),
                digits@ == old(digits)@ + digit_values(text, from, self.index as int),
            decreases self.chars.len() - self.index,
        {
            let ch: char = self.chars[self.index];
            digits.push((ch as u32 - 0x30) as u8);
            self.advance();
            assert(digits@ =~= old(digits)@ + digit_values(text, from, self.index as int));
        }
    }

    /// Read 4 hex digits for \uXXXX escape and return the code point.
    fn read_unicode_escape(&mut self) -> (r: Result<u32, LexerError>)
        requires
            old(self).wf(),
        ensures
            final(self).wf(),
            final(self).chars == old(self).chars,
            match unicode_escape(old(self).chars@, old(self).index as int, 0, 0) {
                Ok(code) => r == Ok::<u32, LexerError>(code)
                    && final(self).index == old(self).index + 4 && code <= 0xFFFF,
                Err(e) => r matches Err(x) && x@ == e,
            },
    {
        let ghost text = self.chars@;
        let ghost from = self.index as int;
        let mut acc: u32 = 0;
        let mut k: usize = 0;
        while k < 4
            invariant
                self.wf(),
                self.chars == old(self).chars,
                self.chars@ == text,
                k <= 4,
                from == old(self).index,
                self.index == from + k,
                k == 0 ==> acc == 0,
                k == 1 ==> acc < 0x10,
                k == 2 ==> acc < 0x100,
                k == 3 ==> acc < 0x1000,
                k == 4 ==> acc < 0x10000,
                unicode_escape(text, from, 0, 0) == unicode_escape(text, from, k as nat, acc),
            decreases 4 - k,
        {
            let digit: Option<u32> = match self.advance() {
                Some(ch) => hex_digit(ch),
                None => None,
            };
            match digit {
                Some(v) => {
                    acc = acc * 16 + v;
                },
                None => {
                    assert(unicode_escape(text, from, k as nat, acc) is Err);
                    return Err(
                        error_at("invalid unicode escape: expected 4 hex digits", self.position),
                    );
                },
            }
            k += 1;
        }
        Ok(acc)
    }

    /// Reads what follows `\u`: four hex digits, and the second escape of a
    /// surrogate pair where they are a high surrogate.
    #[verifier::rlimit(40)]
    fn read_unicode_char(&mut self) -> (r: Result<char, LexerError>)
        requires
            old(self).wf(),
        ensures
            final(self).wf(),
            final(self).chars == old(self).chars,
            match unicode_char_at(old(self).chars@, old(self).index as int) {
                Ok((c, next)) => r == Ok::<char, LexerError>(c) && final(self).index == next
                    && old(self).index < next <= old(self).chars.len(),
                Err(e) => r matches Err(x) && x@ == e,
            },
    {
        let code: u32 = self.read_unicode_escape()?;
        if 0xD800 <= code && code <= 0xDBFF {
            // High surrogate: a low surrogate must follow.
            let first: Option<char> = self.advance();
            if first != Some('\\') {
                return Err(error_at("invalid surrogate pair", self.position));
            }
            let second: Option<char> = self.advance();
            if second != Some('u') {
                return Err(error_at("invalid surrogate pair", self.position));
            }
            let low: u32 = self.read_unicode_escape()?;
            if !(0xDC00 <= low && low <= 0xDFFF) {
                return Err(error_at("invalid low surrogate", self.position));
            }
            let combined: u32 = 0x10000 + (code - 0xD800) * 0x400 + (low - 0xDC00);
            match char::from_u32(combined) {
                Some(ch) => Ok(ch),
                None => Err(error_at("invalid unicode code point", self.position)),
            }
        } else {
            match char::from_u32(code) {
                Some(ch) => Ok(ch),
                None => Err(error_at("invalid unicode code point", self.position)),
            }
        }
    }

    /// Reads the escape whose letter stands at the cursor.
    #[verifier::rlimit(40)]
    fn read_escape(&mut self) -> (r: Result<char, LexerError>)
        requires
            old(self).wf(),
        ensures
            final(self).wf(),
            final(self).chars == old(self).chars,
            match escape_at(old(self).chars@, old(self).index as int) {
                Ok((c, next)) => r == Ok::<char, LexerError>(c) && final(self).index == next
                    && old(self).index < next <= old(self).chars.len(),
                Err(e) => r matches Err(x) && x@ == e,
            },
    {
        let at: usize = self.position;
        let escaped: char = match self.advance() {
            Some(ch) => ch,
            None => {
                return Err(error_at("unexpected end of input in escape sequence", self.position));
            },
        };
        if escaped == 'u' {
            return self.read_unicode_char();
        }
        if escaped == 'n' {
            Ok('\n')
        } else if escaped == 't' {
            Ok('\t')
        } else if escaped == 'r' {
            Ok('\r')
        } else if escaped == '\\' {
            Ok('\\')
        } else if escaped == '\'' {
            Ok('\'')
        } else if escaped == '"' {
            Ok('"')
        } else if escaped == 'b' {
            Ok('\x08')
        } else if escaped == 'f' {
            Ok('\x0C')
        } else if escaped == '/' {
            Ok('/')
        } else {
            Err(error_with_char("invalid escape sequence: \\", escaped, at))
        }
    }

    #[verifier::rlimit(40)]
    fn read_string(&mut self) -> (r: Result<TokenKind, LexerError>)
        requires
            old(self).wf(),
            old(self).index < old(self).chars.len(),
        ensures
            final(self).wf(),
            final(self).chars == old(self).chars,
            match scan_string(
                old(self).chars@,
                old(self).index + 1,
                old(self).chars@[old(self).index as int],
                Seq::empty(),
                old(self).index + 1,
            ) {
                Ok((value, next)) => r matches Ok(kind) && kind@ == TokenKindView::String(value)
                    && final(self).index == next && old(self).index < next <= old(self).chars.len(),
                Err(e) => r matches Err(x) && x@ == e,
            },
    {
        let ghost text = self.chars@;
        let quote: char = self.chars[self.index];
        self.advance();
        let mut value = String::new();
        let start_pos: usize = self.position;
        let ghost start = self.index as int;
        loop
            invariant
                self.wf(),
                self.chars == old(self).chars,
                self.chars@ == text,
                start == old(self).index + 1,
                start <= self.index,
                start_pos == byte_offset(text, start),
                quote == text[old(self).index as int],
                scan_string(text, start, quote, Seq::empty(), start) == scan_string(
                    text,
                    self.index as int,
                    quote,
                    value@,
                    start,
                ),
            decreases text.len() - self.index,
        {
            let at: usize = self.position;
            match self.advance() {
                None => {
                    return Err(error_at("unterminated string", start_pos));
                },
                Some(ch) => {
                    if ch == quote {
                        return Ok(TokenKind::String(value));
                    } else if ch == '\\' {
                        let decoded: char = self.read_escape()?;
                        push_char(&mut value, decoded);
                    } else if (ch as u32) <= 0x1F {
                        return Err(error_at("unescaped control character", at));
                    } else {
                        push_char(&mut value, ch);
                    }
                },
            }
        }
    }

    #[verifier::rlimit(40)]
    fn read_number(&mut self) -> (r: Result<TokenKind, LexerError>)
        requires
            old(self).wf(),
        ensures
            final(self).wf(),
            final(self).chars == old(self).chars,
            match scan_number(old(self).chars@, old(self).index as int) {
                Ok((value, fractional, next)) => r matches Ok(kind) && kind@
                    == TokenKindView::Number(value, fractional) && final(self).index == next
                    && old(self).index < next <= old(self).chars.len(),
                Err(e) => r matches Err(x) && x@ == e,
            },
    {
        let ghost text = self.chars@;
        let ghost shape = number_shape(text, self.index as int);
        let start_pos: usize = self.position;
        let mut digits: Vec<u8> = Vec::new();

        // Optional leading minus sign
        let negative: bool = self.peek_is('-');
        if negative {
            self.advance();
        }
        // Integer part
        let int_start: usize = self.index;
        self.read_digits(&mut digits);
        let int_end: usize = self.index;
        assert(negative == shape.negative && int_start == shape.int_start && int_end
            == shape.int_end);
        assert(digits@ =~= digit_values(text, int_start as int, int_end as int));
        if int_end == int_start {
            return Err(error_at("invalid number", start_pos));
        }
        if int_end - int_start > 1 && self.chars[int_start] == '0' {
            return Err(error_at("leading zeros not allowed", start_pos));
        }
        let int_is_zero: bool = self.chars[int_start] == '0';

        // Decimal part (optional): a dot that a digit follows
        let has_fraction: bool = self.peek_is('.') && self.index + 1 < self.chars.len()
            && is_ascii_digit(self.chars[self.index + 1]);
        let mut fraction_len: usize = 0;
        if has_fraction {
            self.advance();
            let fraction_start: usize = self.index;
            self.read_digits(&mut digits);
            fraction_len = self.index - fraction_start;
        }
        assert(has_fraction == shape.has_fraction && self.index == shape.fraction_end);
        assert(digits@ =~= shape.digits(text));
        assert(fraction_len == shape.fraction(text).len());

        // Exponent part (optional)
        let has_exponent: bool = self.peek_is('e') || self.peek_is('E');
        assert(has_exponent == shape.has_exponent);
        let mut exponent_negative: bool = false;
        let mut written: u64 = 0;
        if has_exponent {
            self.advance();
            if self.peek_is('+') {
                self.advance();
            } else if self.peek_is('-') {
                exponent_negative = true;
                self.advance();
            }
            let exponent_start: usize = self.index;
            let mut exponent_digits: Vec<u8> = Vec::new();
            self.read_digits(&mut exponent_digits);
            assert(exponent_start == shape.exponent_start && self.index == shape.exponent_end);
            assert(exponent_digits@ =~= digit_values(
                text,
                exponent_start as int,
                self.index as int,
            ));
            if self.index == exponent_start {
                return Err(error_at("invalid exponent in number", start_pos));
            }
            written = written_exponent(&exponent_digits);
        }
        assert(exponent_negative == shape.exponent_negative);
        assert(self.index == shape.exponent_end);
        assert(written == shape.written(text));
        if negative && int_is_zero && !has_fraction && !has_exponent {
            return Err(error_at("-0 is not allowed", start_pos));
        }
        let exponent: i128 = (if exponent_negative {
            -(written as i128)
        } else {
            written as i128
        }) - fraction_len as i128;
        assert(exponent == shape.exponent(text));
        let value: Number = Number::normalized(negative, &digits, exponent);
        Ok(TokenKind::Number(value, has_fraction || has_exponent))
    }

    fn read_ident_or_keyword(&mut self) -> (r: TokenKind)
        requires
            old(self).wf(),
            old(self).index < old(self).chars.len(),
            is_name_first(old(self).chars@[old(self).index as int]),
        ensures
            final(self).wf(),
            final(self).chars == old(self).chars,
            final(self).index == name_end(old(self).chars@, old(self).index as int),
            old(self).index < final(self).index,
            r@ == name_token(
                old(self).chars@.subrange(old(self).index as int, final(self).index as int),
            ),
    {
        let start: usize = self.index;
        while self.index < self.chars.len() && is_ident_char(self.chars[self.index])
            invariant
                self.wf(),
                self.chars == old(self).chars,
                start == old(self).index,
                start <= self.index,
                self.index == start ==> is_name_first(self.chars@[start as int]),
                name_end(self.chars@, start as int) == name_end(self.chars@, self.index as int),
            decreases self.chars.len() - self.index,
        {
            self.advance();
        }
        let ident: String = string_of(&self.chars, start, self.index);

        // Check for keywords
        if same_text(ident.as_str(), "true") {
            TokenKind::True
        } else if same_text(ident.as_str(), "false") {
            TokenKind::False
        } else if same_text(ident.as_str(), "null") {
            TokenKind::Null
        } else {
            TokenKind::Ident(ident)
        }
    }

    /// Reads a one- or two-character operator: `two` if `second` follows the
    /// character at the cursor, else `one`.
    fn read_operator(&mut self, second: char, two: TokenKind, one: TokenKind) -> (r: TokenKind)
        requires
            old(self).wf(),
            old(self).index < old(self).chars.len(),
        ensures
            final(self).wf(),
            final(self).chars == old(self).chars,
            old(self).index + 1 < old(self).chars.len() && old(self).chars@[old(self).index + 1]
                == second ==> r == two && final(self).index == old(self).index + 2,
            !(old(self).index + 1 < old(self).chars.len() && old(self).chars@[old(self).index + 1]
                == second) ==> r == one && final(self).index == old(self).index + 1,
    {
        self.advance();
        if self.peek_is(second) {
            self.advance();
            two
        } else {
            one
        }
    }

    #[verifier::rlimit(40)]
    fn next_token(&mut self) -> (r: Result<Option<Token>, LexerError>)
        requires
            old(self).wf(),
        ensures
            final(self).wf(),
            final(self).chars == old(self).chars,
            ({
                let text = old(self).chars@;
                let at = blanks_end(text, old(self).index as int);
                if !(0 <= at < text.len()) {
                    r matches Ok(None)
                } else {
                    match token_at(text, at) {
                        Err(e) => r matches Err(x) && x@ == e,
                        Ok((kind, next)) => r matches Ok(Some(token)) && token@ == (TokenView {
                            kind,
                            position: byte_offset(text, at),
                        }) && final(self).index == next && old(self).index <= at < next
                            <= text.len(),
                    }
                }
            }),
    {
        self.skip_whitespace();
        let ch: char = match self.peek() {
            Some(c) => c,
            None => {
                return Ok(None);
            },
        };
        let start_pos: usize = self.position;
        let kind: TokenKind = if ch == '$' {
            self.advance();
            TokenKind::Root
        } else if ch == '@' {
            self.advance();
            TokenKind::At
        } else if ch == '.' {
            self.read_operator('.', TokenKind::DotDot, TokenKind::Dot)
        } else if ch == '[' {
            self.advance();
            TokenKind::BracketOpen
        } else if ch == ']' {
            self.advance();
            TokenKind::BracketClose
        } else if ch == '(' {
            self.advance();
            TokenKind::ParenOpen
        } else if ch == ')' {
            self.advance();
            TokenKind::ParenClose
        } else if ch == '*' {
            self.advance();
            TokenKind::Wildcard
        } else if ch == ':' {
            self.advance();
            TokenKind::Colon
        } else if ch == ',' {
            self.advance();
            TokenKind::Comma
        } else if ch == '?' {
            self.advance();
            TokenKind::Question
        } else if ch == '<' {
            self.read_operator('=', TokenKind::LessEq, TokenKind::LessThan)
        } else if ch == '>' {
            self.read_operator('=', TokenKind::GreaterEq, TokenKind::GreaterThan)
        } else if ch == '=' {
            self.advance();
            if self.peek_is('=') {
                self.advance();
                TokenKind::Equal
            } else {
                return Err(error_at("expected '==' but found single '='", start_pos));
            }
        } else if ch == '!' {
            self.read_operator('=', TokenKind::NotEqual, TokenKind::Not)
        } else if ch == '&' {
            self.advance();
            if self.peek_is('&') {
                self.advance();
                TokenKind::And
            } else {
                return Err(error_at("expected '&&' but found single '&'", start_pos));
            }
        } else if ch == '|' {
            self.advance();
            if self.peek_is('|') {
                self.advance();
                TokenKind::Or
            } else {
                return Err(error_at("expected '||' but found single '|'", start_pos));
            }
        } else if ch == '\'' || ch == '"' {
            self.read_string()?
        } else if ch == '-' || is_ascii_digit(ch) {
            self.read_number()?
        } else if is_ident_start(ch) {
            self.read_ident_or_keyword()
        } else {
            return Err(error_with_char("unexpected character: ", ch, self.position));
        };
        Ok(Some(Token { kind, position: start_pos }))
    }
}

/// The number that the text `s` is, if the whole of it is one number.
pub open spec fn number_of_text(s: Seq<char>) -> Option<Decimal> {
    match scan_number(s, 0) {
        Ok((value, _, end)) => if end == s.len() {
            Some(value)
        } else {
            None
        },
        Err(_) => None,
    }
}

/// Reads a text that holds one number and nothing else.
pub fn parse_number(text: &str) -> (r: Option<Number>)
    ensures
        match number_of_text(text@) {
            Some(value) => r matches Some(n) && n@ == value,
            None => r is None,
        },
{
    let mut lexer: Lexer = Lexer::new(text);
    match lexer.read_number() {
        Ok(TokenKind::Number(value, _)) => if lexer.index == lexer.chars.len() {
            Some(value)
        } else {
            None
        },
        _ => None,
    }
}

} // verus!
