//! Conversions between strings and sequences of characters, the comparison of
//! strings, and the lengths of texts in bytes.

use vstd::prelude::*;
use vstd::slice::slice_subrange;
use vstd::string::StringSliceAdditionalSpecFns;
use vstd::utf8::char_is_scalar;
use vstd::utf8::encode_scalar;
use vstd::utf8::encode_utf8;
use vstd::utf8::encode_utf8_decode_utf8;

verus! {

/// The characters of `s`, in order.
pub(crate) fn chars_of(s: &str) -> (v: Vec<char>)
    ensures
        v@ == s@,
{
    let mut v: Vec<char> = Vec::new();
    for c in it: s.chars()
        invariant
            v@ == it.seq().take(it.index()),
    {
        v.push(c);
    }
    v
}

/// `String::from_iter` over the characters of a slice: the result holds exactly those
/// characters, in the order of the slice.
#[verifier::external_body]
fn collect_string(chars: &[char]) -> (s: String)
    ensures
        s@ == chars@,
{
    String::from_iter(chars.iter())
}

/// The string made of the characters `chars[from..to]`.
pub(crate) fn string_of(chars: &[char], from: usize, to: usize) -> (s: String)
    requires
        from <= to <= chars@.len(),
    ensures
        s@ == chars@.subrange(from as int, to as int),
{
    collect_string(slice_subrange(chars, from, to))
}

/// Whether `a` and `b` are the same text. Their bytes are compared: two texts are the
/// same exactly where their UTF-8 encodings are.
pub(crate) fn same_str(a: &str, b: &str) -> (r: bool)
    ensures
        r == (a@ == b@),
{
    let x = a.as_bytes();
    let y = b.as_bytes();
    proof {
        encode_utf8_decode_utf8(a@);
        encode_utf8_decode_utf8(b@);
    }
    if x.len() != y.len() {
        return false;
    }
    let mut i: usize = 0;
    while i < x.len()
        invariant
            i <= x@.len(),
            x@.len() == y@.len(),
            x@ == a.spec_bytes(),
            y@ == b.spec_bytes(),
            forall|k: int| 0 <= k < i ==> x@[k] == y@[k],
        decreases x@.len() - i,
    {
        if x[i] != y[i] {
            return false;
        }
        i += 1;
    }
    assert(x@ =~= y@);
    true
}

/// The number of bytes that the UTF-8 encoding of `c` takes.
pub open spec fn utf8_width(c: char) -> nat {
    if (c as u32) < 0x80 {
        1
    } else if (c as u32) < 0x800 {
        2
    } else if (c as u32) < 0x10000 {
        3
    } else {
        4
    }
}

/// The number of bytes that the UTF-8 encoding of the text `s` takes.
pub open spec fn byte_length(s: Seq<char>) -> nat {
    encode_utf8(s).len()
}

/// The encoding of two texts in a row is the encoding of the first and then that of
/// the second.
pub proof fn lemma_encoding_of_both(a: Seq<char>, b: Seq<char>)
    ensures
        encode_utf8(a + b) == encode_utf8(a) + encode_utf8(b),
        byte_length(a + b) == byte_length(a) + byte_length(b),
    decreases a.len(),
{
    if a.len() == 0 {
        assert(a + b =~= b);
        assert(encode_utf8(a) + encode_utf8(b) =~= encode_utf8(b));
    } else {
        lemma_encoding_of_both(a.drop_first(), b);
        assert((a + b).drop_first() =~= a.drop_first() + b);
        assert((a + b)[0] == a[0]);
        assert(encode_utf8(a + b) =~= encode_utf8(a) + encode_utf8(b));
    }
}

/// A text with one more character takes the bytes of that character more.
pub proof fn lemma_byte_length_of_prefix(s: Seq<char>, i: int)
    requires
        0 <= i < s.len(),
    ensures
        byte_length(s.take(i + 1)) == byte_length(s.take(i)) + utf8_width(s[i]),
        byte_length(s.take(i + 1)) <= byte_length(s),
        byte_length(s.take(0)) == 0,
{
    let one = seq![s[i]];
    assert(s.take(i + 1) =~= s.take(i) + one);
    lemma_encoding_of_both(s.take(i), one);
    assert(one.drop_first() =~= Seq::<char>::empty());
    assert(encode_utf8(one) =~= encode_scalar(s[i] as u32)) by {
        assert(encode_utf8(one.drop_first()) =~= Seq::<u8>::empty());
    }
    char_is_scalar(s[i]);
    assert(s =~= s.take(i + 1) + s.skip(i + 1));
    lemma_encoding_of_both(s.take(i + 1), s.skip(i + 1));
    assert(s.take(0) =~= Seq::<char>::empty());
}

/// The number of bytes that the UTF-8 encoding of `c` takes.
pub(crate) fn char_width(c: char) -> (n: usize)
    ensures
        n == utf8_width(c),
{
    let code: u32 = c as u32;
    if code < 0x80 {
        1
    } else if code < 0x800 {
        2
    } else if code < 0x10000 {
        3
    } else {
        4
    }
}

/// The number of bytes that the characters `chars[from..to]` take in UTF-8.
pub(crate) fn bytes_between(chars: &[char], from: usize, to: usize) -> (n: usize)
    requires
        from <= to <= chars@.len(),
        byte_length(chars@) <= usize::MAX,
    ensures
        byte_length(chars@.take(from as int)) + n == byte_length(chars@.take(to as int)),
        byte_length(chars@.take(to as int)) <= byte_length(chars@),
{
    let mut n: usize = 0;
    let mut k: usize = from;
    proof {
        if from > 0 {
            lemma_byte_length_of_prefix(chars@, from - 1);
        } else {
            assert(chars@.take(0) =~= Seq::<char>::empty());
        }
    }
    while k < to
        invariant
            from <= k <= to <= chars@.len(),
            byte_length(chars@) <= usize::MAX,
            byte_length(chars@.take(from as int)) + n == byte_length(chars@.take(k as int)),
            byte_length(chars@.take(k as int)) <= byte_length(chars@),
        decreases to - k,
    {
        proof {
            lemma_byte_length_of_prefix(chars@, k as int);
        }
        n = n + char_width(chars[k]);
        k += 1;
    }
    n
}

} // verus!
