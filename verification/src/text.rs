//! Small helpers on strings that several modules share.

use vstd::prelude::*;

verus! {

/// The number of bytes that the UTF-8 encoding of `s` takes.
pub open spec fn byte_len(s: Seq<char>) -> nat {
    vstd::utf8::encode_utf8(s).len()
}

/// `==` on strings, of the standard library. Trusted: two strings are equal
/// where they hold the same scalars.
pub assume_specification[ <str as PartialEq>::eq ](a: &str, b: &str) -> (same: bool)
    ensures
        same == (a@ == b@),
;

/// The number of bytes that the UTF-8 encoding of the scalar `c` takes.
pub open spec fn char_len(c: char) -> nat {
    vstd::utf8::encode_scalar(c as u32).len()
}

/// The number of bytes that the UTF-8 encoding of the scalar `c` takes.
pub fn char_byte_len(c: char) -> (len: usize)
    ensures
        len == char_len(c),
        1 <= len <= 4,
{
    let v = c as u32;
    if v <= 0x7F {
        1
    } else if v <= 0x7FF {
        2
    } else if v <= 0xFFFF {
        proof {
            vstd::utf8::char_is_scalar(c);
        }
        3
    } else {
        proof {
            vstd::utf8::char_is_scalar(c);
        }
        4
    }
}

/// The encoding of two texts in a row is the two encodings in a row.
pub proof fn lemma_encode_add(a: Seq<char>, b: Seq<char>)
    ensures
        vstd::utf8::encode_utf8(a + b) == vstd::utf8::encode_utf8(a) + vstd::utf8::encode_utf8(b),
    decreases a.len(),
{
    if a.len() == 0 {
        assert(a + b =~= b);
        assert(vstd::utf8::encode_utf8(a) + vstd::utf8::encode_utf8(b) =~= vstd::utf8::encode_utf8(
            b,
        ));
    } else {
        lemma_encode_add(a.drop_first(), b);
        assert((a + b).drop_first() =~= a.drop_first() + b);
        assert((a + b)[0] == a[0]);
        assert(vstd::utf8::encode_utf8(a + b) =~= vstd::utf8::encode_utf8(a)
            + vstd::utf8::encode_utf8(b));
    }
}

/// Two texts in a row take the bytes of both.
pub proof fn lemma_byte_len_add(a: Seq<char>, b: Seq<char>)
    ensures
        byte_len(a + b) == byte_len(a) + byte_len(b),
{
    lemma_encode_add(a, b);
}

/// The first scalars of a text, with the next one, take the bytes of both;
/// and no more than the whole text.
pub proof fn lemma_byte_len_take(text: Seq<char>, n: int)
    requires
        0 <= n <= text.len(),
    ensures
        byte_len(text.take(n)) <= byte_len(text),
        byte_len(text) == byte_len(text.take(n)) + byte_len(text.skip(n)),
        n < text.len() ==> byte_len(text.take(n + 1)) == byte_len(text.take(n)) + char_len(text[n]),
{
    assert(text =~= text.take(n) + text.skip(n));
    lemma_byte_len_add(text.take(n), text.skip(n));
    if n < text.len() {
        let one = seq![text[n]];
        assert(text.take(n + 1) =~= text.take(n) + one);
        lemma_byte_len_add(text.take(n), one);
        assert(one.drop_first() =~= Seq::<char>::empty());
        assert(vstd::utf8::encode_utf8(one) =~= vstd::utf8::encode_scalar(text[n] as u32)) by {
            reveal_with_fuel(vstd::utf8::encode_utf8, 2);
        }
    }
}

/// `char::from_u32` of the standard library. Trusted: it returns the
/// scalar of the value `i` where there is one, which is where `i` is no
/// surrogate and at most `0x10FFFF`.
pub assume_specification[ char::from_u32 ](i: u32) -> (c: Option<char>)
    ensures
        match c {
            Some(c) => vstd::utf8::is_scalar(i) && c as u32 == i,
            None => !vstd::utf8::is_scalar(i),
        },
;

/// `String::push` of the standard library. Trusted: it puts the scalar at
/// the end of the string.
pub assume_specification[ String::push ](s: &mut String, c: char)
    ensures
        final(s)@ == old(s)@.push(c),
;

/// The scalars of `s`, in order.
pub fn chars_of(s: &str) -> (chars: Vec<char>)
    ensures
        chars@ == s@,
{
    let mut chars: Vec<char> = Vec::new();
    for c in it: s.chars()
        invariant
            it.seq() == s@,
            chars@ == it.seq().take(it.index() as int),
    {
        chars.push(c);
    }
    chars
}

} // verus!
