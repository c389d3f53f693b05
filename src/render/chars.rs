//! Characters of strings, and which of them are whitespace.

use vstd::prelude::*;
use vstd::utf8::{char_is_scalar, encode_scalar, encode_utf8};

verus! {

/// The Unicode `White_Space` property.
pub open spec fn is_white_space(c: char) -> bool {
    let u = c as u32;
    (0x09 <= u && u <= 0x0D) || u == 0x20 || u == 0x85 || u == 0xA0 || u == 0x1680
        || (0x2000 <= u && u <= 0x200A) || u == 0x2028 || u == 0x2029 || u == 0x202F
        || u == 0x205F || u == 0x3000
}

/// `n`, or the largest `usize` where `n` is larger.
pub open spec fn saturated(n: int) -> nat {
    if n > usize::MAX { usize::MAX as nat } else { n as nat }
}

/// The number of bytes of `s` in UTF-8.
pub open spec fn utf8_len(s: Seq<char>) -> nat {
    encode_utf8(s).len()
}

/// The UTF-8 length of a concatenation is the sum of the lengths.
pub proof fn lemma_utf8_len_concat(a: Seq<char>, b: Seq<char>)
    ensures
        utf8_len(a + b) == utf8_len(a) + utf8_len(b),
    decreases a.len(),
{
    if a.len() == 0 {
        assert(a + b =~= b);
    } else {
        assert((a + b).drop_first() =~= a.drop_first() + b);
        assert((a + b)[0] == a[0]);
        lemma_utf8_len_concat(a.drop_first(), b);
    }
}

/// The UTF-8 length of a single character.
pub proof fn lemma_utf8_len_one(c: char)
    ensures
        utf8_len(seq![c]) == encode_scalar(c as u32).len(),
{
    assert(seq![c].drop_first() =~= Seq::<char>::empty());
    assert(encode_utf8(Seq::<char>::empty()) =~= Seq::<u8>::empty());
}

/// The number of bytes of `c` in UTF-8.
fn char_utf8_len(c: char) -> (r: usize)
    ensures
        r == encode_scalar(c as u32).len(),
{
    proof {
        char_is_scalar(c);
    }
    let u = c as u32;
    if u < 0x80 {
        1
    } else if u < 0x800 {
        2
    } else if u < 0x10000 {
        3
    } else {
        4
    }
}

/// The number of bytes of `chars` in UTF-8, or the largest `usize` where
/// that is larger.
pub(crate) fn utf8_count(chars: &Vec<char>) -> (r: usize)
    ensures
        r == saturated(utf8_len(chars@) as int),
{
    let mut acc: usize = 0;
    let mut i: usize = 0;
    assert(chars@.take(0) =~= Seq::<char>::empty());
    assert(encode_utf8(Seq::<char>::empty()) =~= Seq::<u8>::empty());
    while i < chars.len()
        invariant
            i <= chars@.len(),
            acc == saturated(utf8_len(chars@.take(i as int)) as int),
        decreases chars@.len() - i,
    {
        let c = chars[i];
        let w = char_utf8_len(c);
        proof {
            assert(chars@.take(i + 1) =~= chars@.take(i as int) + seq![c]);
            lemma_utf8_len_concat(chars@.take(i as int), seq![c]);
            lemma_utf8_len_one(c);
        }
        acc = acc.saturating_add(w);
        i = i + 1;
    }
    assert(chars@.take(i as int) =~= chars@);
    acc
}

/// Relies on `char::is_whitespace`: true exactly for the characters with
/// the Unicode `White_Space` property.
#[verifier::external_body]
pub(crate) fn char_is_whitespace(c: char) -> (r: bool)
    ensures
        r == is_white_space(c),
{
    c.is_whitespace()
}

/// Relies on `str::chars`: the characters of `s` in order.
#[verifier::external_body]
pub(crate) fn chars_of(s: &str) -> (r: Vec<char>)
    ensures
        r@ == s@,
{
    s.chars().collect()
}

/// Relies on collecting characters into a `String` (`FromIterator<char>`):
/// the string of exactly those characters.
#[verifier::external_body]
pub(crate) fn string_of(v: &Vec<char>) -> (r: String)
    ensures
        r@ == v@,
{
    v.iter().collect()
}

} // verus!
