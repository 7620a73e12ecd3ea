//! Strings and bytes: what the standard library does and the verifier's
//! own library does not describe, and small verified helpers on top.
use vstd::prelude::*;
use vstd::utf8::*;

verus! {

/// `String::push`: the string grows by the one character at its end.
#[verifier::external_body]
pub(crate) fn push_char(s: &mut String, c: char)
    ensures
        final(s)@ == old(s)@.push(c),
{
    s.push(c)
}

/// `String::from_utf8`: the bytes become a string exactly when they are
/// well-formed UTF-8, and the string then holds the characters they encode.
#[verifier::external_body]
pub(crate) fn string_from_utf8(bytes: Vec<u8>) -> (r: Option<String>)
    ensures
        r is Some <==> valid_utf8(bytes@),
        r matches Some(s) ==> s@ == decode_utf8(bytes@),
{
    String::from_utf8(bytes).ok()
}

/// The text in upper case, as `str::to_uppercase` gives it.
pub uninterp spec fn uppercase(text: Seq<char>) -> Seq<char>;

/// Whether the character is a letter or a digit of any script, as
/// `char::is_alphanumeric` decides it.
pub uninterp spec fn alphanumeric(c: char) -> bool;

/// `str::to_uppercase`: the text with every character in upper case.  The
/// outcome depends on the text alone.
#[verifier::external_body]
pub(crate) fn to_uppercase(text: &str) -> (r: String)
    ensures
        r@ == uppercase(text@),
{
    text.to_uppercase()
}

/// `char::is_alphanumeric`: whether the character is a letter or a digit
/// of any script.
#[verifier::external_body]
pub(crate) fn is_alphanumeric(c: char) -> (b: bool)
    ensures
        b == alphanumeric(c),
{
    c.is_alphanumeric()
}

/// The 32-bit signed integer that the text spells, as `str::parse` reads
/// it, or nothing where it spells none.
pub uninterp spec fn parsed_i32(text: Seq<char>) -> Option<i32>;

/// The 64-bit signed integer that the text spells, as `str::parse` reads
/// it, or nothing where it spells none.
pub uninterp spec fn parsed_i64(text: Seq<char>) -> Option<i64>;

/// `str::parse::<i32>`: the number that the text spells, if it spells one
/// that fits.  The outcome depends on the text alone.
#[verifier::external_body]
pub(crate) fn parse_i32(text: &str) -> (r: Option<i32>)
    ensures
        r == parsed_i32(text@),
{
    text.parse::<i32>().ok()
}

/// `str::parse::<i64>`: the number that the text spells, if it spells one
/// that fits.  The outcome depends on the text alone.
#[verifier::external_body]
pub(crate) fn parse_i64(text: &str) -> (r: Option<i64>)
    ensures
        r == parsed_i64(text@),
{
    text.parse::<i64>().ok()
}

/// The decimal text of a number, as `i64::to_string` writes it.
pub uninterp spec fn decimal(x: i64) -> Seq<char>;

/// `i64::to_string`: the decimal text of the number.
#[verifier::external_body]
pub(crate) fn i64_to_string(x: i64) -> (r: String)
    ensures
        r@ == decimal(x),
{
    x.to_string()
}

/// The text between quotes with its special characters escaped, as the
/// `Debug` of `str` writes it.
pub uninterp spec fn debug_string(text: Seq<char>) -> Seq<char>;

/// `format!` with `{:?}` on a `str`: the text in quotes, escaped.  The
/// outcome depends on the text alone.
#[verifier::external_body]
pub(crate) fn debug_of_text(text: &str) -> (r: String)
    ensures
        r@ == debug_string(text@),
{
    format!("{:?}", text)
}

/// Appends a copy of `more` to `buf`.
pub fn append_bytes(buf: &mut Vec<u8>, more: &[u8])
    ensures
        final(buf)@ == old(buf)@ + more@,
{
    let mut i: usize = 0;
    while i < more.len()
        invariant
            i <= more@.len(),
            buf@ == old(buf)@ + more@.subrange(0, i as int),
        decreases more@.len() - i,
    {
        buf.push(more[i]);
        i += 1;
        assert(buf@ =~= old(buf)@ + more@.subrange(0, i as int));
    }
    assert(more@.subrange(0, i as int) =~= more@);
}

/// The bytes of `bytes` from `from` up to `to`, as a vector of their own.
pub fn copy_range(bytes: &[u8], from: usize, to: usize) -> (out: Vec<u8>)
    requires
        from <= to <= bytes@.len(),
    ensures
        out@ == bytes@.subrange(from as int, to as int),
{
    let mut out: Vec<u8> = Vec::new();
    let mut i: usize = from;
    while i < to
        invariant
            from <= i <= to <= bytes@.len(),
            out@ == bytes@.subrange(from as int, i as int),
        decreases to - i,
    {
        out.push(bytes[i]);
        i += 1;
        assert(out@ =~= bytes@.subrange(from as int, i as int));
    }
    out
}

/// The characters of `text`, one by one.
pub fn chars_of(text: &str) -> (out: Vec<char>)
    ensures
        out@ == text@,
{
    let mut out: Vec<char> = Vec::new();
    for c in it: text.chars()
        invariant
            out@ == it.seq().take(it.index() as int),
            it.seq() == text@,
    {
        out.push(c);
    }
    out
}

/// The string made of the characters of `chars` from `from` up to `to`.
pub fn string_of(chars: &Vec<char>, from: usize, to: usize) -> (out: String)
    requires
        from <= to <= chars@.len(),
    ensures
        out@ == chars@.subrange(from as int, to as int),
{
    let mut out = String::new();
    let mut i: usize = from;
    while i < to
        invariant
            from <= i <= to <= chars@.len(),
            out@ == chars@.subrange(from as int, i as int),
        decreases to - i,
    {
        push_char(&mut out, chars[i]);
        i += 1;
        assert(out@ =~= chars@.subrange(from as int, i as int));
    }
    out
}

} // verus!
