//! Characters and strings: conversions between `str` and sequences of
//! characters, and the UTF-8 width by which byte offsets are counted.

use vstd::prelude::*;

verus! {

/// Number of bytes that `c` takes in UTF-8.
pub open spec fn utf8_width(c: char) -> nat {
    if (c as u32) < 0x80 {
        1
    } else if (c as u32) < 0x800 {
        2
    } else if (c as u32) < 0x10000 {
        3
    } else {
        4
    }
}

/// Byte offset of the character at index `i` of `s`: the widths of all
/// characters before it.
pub open spec fn byte_offset(s: Seq<char>, i: int) -> nat
    decreases i,
{
    if i <= 0 || i > s.len() {
        0
    } else {
        byte_offset(s, i - 1) + utf8_width(s[i - 1])
    }
}

/// The offset grows by the width of each character passed.
pub proof fn lemma_byte_offset_monotonic(s: Seq<char>, i: int, j: int)
    requires
        0 <= i <= j <= s.len(),
    ensures
        byte_offset(s, i) <= byte_offset(s, j),
        j - i <= byte_offset(s, j) - byte_offset(s, i),
    decreases j - i,
{
    if i < j {
        lemma_byte_offset_monotonic(s, i, j - 1);
    }
}

proof fn lemma_byte_offset_drop_first(s: Seq<char>, n: int)
    requires
        1 <= n <= s.len(),
    ensures
        byte_offset(s, n) == utf8_width(s[0]) + byte_offset(s.drop_first(), n - 1),
    decreases n,
{
    let rest = s.drop_first();
    if n > 1 {
        lemma_byte_offset_drop_first(s, n - 1);
        assert(rest[n - 2] == s[n - 1]);
        assert(byte_offset(rest, n - 1) == byte_offset(rest, n - 2) + utf8_width(rest[n - 2]));
    } else {
        assert(byte_offset(s, 0) == 0);
        assert(byte_offset(rest, 0) == 0);
    }
    assert(byte_offset(s, n) == byte_offset(s, n - 1) + utf8_width(s[n - 1]));
}

/// The offset of the end of a text is the length of its UTF-8 encoding.
pub proof fn lemma_byte_offset_total(s: Seq<char>)
    ensures
        byte_offset(s, s.len() as int) == vstd::utf8::encode_utf8(s).len(),
    decreases s.len(),
{
    if s.len() > 0 {
        lemma_byte_offset_drop_first(s, s.len() as int);
        lemma_byte_offset_total(s.drop_first());
        vstd::utf8::char_is_scalar(s[0]);
    }
}

/// `char::from_u32`: the character with the scalar value `code`; none where
/// `code` is a surrogate or lies beyond U+10FFFF.
pub assume_specification[ char::from_u32 ](code: u32) -> (r: Option<char>)
    ensures
        (code <= 0xD7FF || 0xE000 <= code <= 0x10FFFF) ==> r == Some(code as char),
        !(code <= 0xD7FF || 0xE000 <= code <= 0x10FFFF) ==> r is None,
;

/// Length of a text in bytes.
pub fn byte_length(s: &str) -> (r: usize)
    ensures
        r == byte_offset(s@, s@.len() as int),
{
    proof {
        lemma_byte_offset_total(s@);
    }
    s.as_bytes().len()
}

/// The character of the decimal digit `d`.
pub open spec fn digit_char(d: nat) -> char {
    (d + 0x30) as char
}

/// The number `n` written in decimal.
pub open spec fn decimal_text(n: nat) -> Seq<char>
    decreases n,
{
    if n < 10 {
        seq![digit_char(n)]
    } else {
        decimal_text(n / 10).push(digit_char(n % 10))
    }
}

/// Appends the number `n`, written in decimal, to `s`.
pub fn push_decimal(s: &mut String, n: usize)
    ensures
        final(s)@ == old(s)@ + decimal_text(n as nat),
    decreases n,
{
    if n >= 10 {
        push_decimal(s, n / 10);
    }
    let digit: u8 = (n % 10) as u8;
    push_char(s, (digit + 0x30) as char);
    proof {
        if n >= 10 {
            let before = old(s)@ + decimal_text((n / 10) as nat);
            assert(old(s)@ + decimal_text(n as nat) =~= before.push(digit_char((n % 10) as nat)));
        } else {
            assert(old(s)@ + decimal_text(n as nat) =~= old(s)@.push(digit_char(n as nat)));
        }
    }
}

/// `str::eq`, the `==` of string slices: true exactly when the two slices
/// hold the same characters.
pub assume_specification[ <str as PartialEq>::eq ](a: &str, b: &str) -> (r: bool)
    ensures
        r == (a@ == b@),
;

/// Whether the two slices hold the same characters.
pub fn same_text(a: &str, b: &str) -> (r: bool)
    ensures
        r == (a@ == b@),
{
    a.eq(b)
}

/// Calls `String::push`: after the call the string holds what it held, then
/// the character `c`.
#[verifier::external_body]
pub(crate) fn push_char(s: &mut String, c: char)
    ensures
        final(s)@ == old(s)@.push(c),
{
    s.push(c)
}

/// The characters of `s`, in order.
pub fn chars_of(s: &str) -> (r: Vec<char>)
    ensures
        r@ == s@,
{
    let mut out: Vec<char> = Vec::new();
    for c in it: s.chars()
        invariant
            out@ == it.seq().take(it.index()),
            it.seq() == s@,
    {
        out.push(c);
    }
    out
}

/// The string made of the characters `chars[from..to]`.
pub fn string_of(chars: &Vec<char>, from: usize, to: usize) -> (r: String)
    requires
        from <= to <= chars.len(),
    ensures
        r@ == chars@.subrange(from as int, to as int),
{
    let mut out = String::new();
    let mut i: usize = from;
    while i < to
        invariant
            from <= i <= to <= chars.len(),
            out@ == chars@.subrange(from as int, i as int),
        decreases to - i,
    {
        push_char(&mut out, chars[i]);
        i += 1;
    }
    out
}

} // verus!
