//! Regular expressions of the interoperable dialect (I-Regexp): rewriting a
//! pattern so that `.` excludes carriage return and line feed, and matching
//! with the `regex` crate.

use crate::text::{chars_of, push_char};
use vstd::prelude::*;
use vstd::string::StringExecFns;

verus! {

/// Whether `Regex::new` accepts the pattern.
pub uninterp spec fn regex_compiles(pattern: Seq<char>) -> bool;

/// Whether the regular expression compiled from `pattern` matches somewhere
/// in `text` (`Regex::is_match`).
pub uninterp spec fn regex_matches(pattern: Seq<char>, text: Seq<char>) -> bool;

/// Compiles `pattern` with `Regex::new` and searches `text` with
/// `Regex::is_match`. Gives `None` where the pattern does not compile, else
/// whether a match was found; both depend on the pattern and the text alone.
#[verifier::external_body]
fn regex_is_match(pattern: &str, text: &str) -> (r: Option<bool>)
    ensures
        r is Some == regex_compiles(pattern@),
        r matches Some(found) ==> found == regex_matches(pattern@, text@),
{
    match regex::Regex::new(pattern) {
        Ok(re) => Some(re.is_match(text)),
        Err(_) => None,
    }
}

/// What a search that came out as `found` counts as in a filter: a match only
/// where the pattern compiled and matched.
pub fn match_outcome(found: Option<bool>) -> (r: bool)
    ensures
        r == (found == Some(true)),
{
    match found {
        Some(b) => b,
        None => false,
    }
}

/// The class that stands for `.`: any character but carriage return and line feed.
pub open spec fn any_but_newline() -> Seq<char> {
    "[^\\r\\n]"@
}

/// The pattern `p` from index `i` on, rewritten after `acc`: every unescaped
/// `.` outside a character class becomes [`any_but_newline`]. A backslash
/// passes through with the character after it; `[` opens a character class
/// and the next unescaped `]` closes it.
pub open spec fn rewrite_from(p: Seq<char>, i: int, in_class: bool, acc: Seq<char>) -> Seq<char>
    decreases p.len() - i,
{
    if !(0 <= i < p.len()) {
        acc
    } else if p[i] == '\\' {
        if i + 1 < p.len() {
            rewrite_from(p, i + 2, in_class, acc.push(p[i]).push(p[i + 1]))
        } else {
            rewrite_from(p, i + 1, in_class, acc.push(p[i]))
        }
    } else if p[i] == '[' && !in_class {
        rewrite_from(p, i + 1, true, acc.push(p[i]))
    } else if p[i] == ']' && in_class {
        rewrite_from(p, i + 1, false, acc.push(p[i]))
    } else if p[i] == '.' && !in_class {
        rewrite_from(p, i + 1, in_class, acc + any_but_newline())
    } else {
        rewrite_from(p, i + 1, in_class, acc.push(p[i]))
    }
}

/// The pattern `p` with `.` as I-Regexp reads it.
pub open spec fn iregexp_pattern(p: Seq<char>) -> Seq<char> {
    rewrite_from(p, 0, false, Seq::empty())
}

/// The pattern that matches exactly the texts that `p` matches as a whole.
pub open spec fn anchored(p: Seq<char>) -> Seq<char> {
    "^(?:"@ + p + ")$"@
}

/// Whether the whole of `text` matches the I-Regexp `pattern`; false where
/// the pattern is not valid.
pub open spec fn full_match(text: Seq<char>, pattern: Seq<char>) -> bool {
    let compiled = anchored(iregexp_pattern(pattern));
    regex_compiles(compiled) && regex_matches(compiled, text)
}

/// Whether some part of `text` matches the I-Regexp `pattern`; false where
/// the pattern is not valid.
pub open spec fn partial_match(text: Seq<char>, pattern: Seq<char>) -> bool {
    let compiled = iregexp_pattern(pattern);
    regex_compiles(compiled) && regex_matches(compiled, text)
}

/// Transform regex pattern for I-Regexp compliance: `.` must not match
/// carriage return, nor line feed.
pub fn transform_pattern_for_iregexp(pattern: &str) -> (r: String)
    ensures
        r@ == iregexp_pattern(pattern@),
{
    let chars: Vec<char> = chars_of(pattern);
    let mut result = String::new();
    let mut in_char_class: bool = false;
    let mut i: usize = 0;
    while i < chars.len()
        invariant
            chars@ == pattern@,
            iregexp_pattern(pattern@) == rewrite_from(chars@, i as int, in_char_class, result@),
        decreases chars.len() - i,
    {
        let c: char = chars[i];
        if c == '\\' {
            // Escaped character: pass through as it is
            push_char(&mut result, c);
            if i + 1 < chars.len() {
                push_char(&mut result, chars[i + 1]);
                i += 2;
            } else {
                i += 1;
            }
        } else if c == '[' && !in_char_class {
            in_char_class = true;
            push_char(&mut result, c);
            i += 1;
        } else if c == ']' && in_char_class {
            in_char_class = false;
            push_char(&mut result, c);
            i += 1;
        } else if c == '.' && !in_char_class {
            result.append("[^\\r\\n]");
            i += 1;
        } else {
            push_char(&mut result, c);
            i += 1;
        }
    }
    result
}

/// Whether the whole of `text` matches the I-Regexp `pattern`.
pub fn matches_fully(text: &str, pattern: &str) -> (r: bool)
    ensures
        r == full_match(text@, pattern@),
{
    let transformed: String = transform_pattern_for_iregexp(pattern);
    let mut anchored_pattern: String = "^(?:".to_owned();
    anchored_pattern.append(transformed.as_str());
    anchored_pattern.append(")$");
    match_outcome(regex_is_match(anchored_pattern.as_str(), text))
}

/// Whether some part of `text` matches the I-Regexp `pattern`.
pub fn matches_partly(text: &str, pattern: &str) -> (r: bool)
    ensures
        r == partial_match(text@, pattern@),
{
    let transformed: String = transform_pattern_for_iregexp(pattern);
    match_outcome(regex_is_match(transformed.as_str(), text))
}

} // verus!
