//! Characters of a text together with their byte positions in its UTF-8 form.
use vstd::prelude::*;
use vstd::utf8::{char_is_scalar, encode_scalar, encode_utf8};

use crate::grammar::byte_offset;

verus! {

/// Appends one character to a string (`String::push`). The contract claims
/// that the text of `s` grows by exactly `c` at its end.
#[verifier::external_body]
pub(crate) fn push_char(s: &mut String, c: char)
    ensures
        final(s)@ == old(s)@.push(c),
{
    s.push(c);
}

/// The characters of an indexed text.
pub open spec fn text_of(v: Seq<(usize, char)>) -> Seq<char> {
    v.map_values(|p: (usize, char)| p.1)
}

/// `v` lists the characters of `s`, each with the byte position at which it starts.
pub open spec fn is_index_of(v: Seq<(usize, char)>, s: Seq<char>) -> bool {
    &&& v.len() == s.len()
    &&& forall|k: int| 0 <= k < v.len() ==> (#[trigger] v[k]).1 == s[k] && v[k].0 == byte_offset(s, k)
}

/// The UTF-8 form of a concatenation is the concatenation of the UTF-8 forms.
pub proof fn lemma_encode_utf8_concat(a: Seq<char>, b: Seq<char>)
    ensures
        encode_utf8(a + b) == encode_utf8(a) + encode_utf8(b),
    decreases a.len(),
{
    if a.len() == 0 {
        assert(a + b =~= b);
        assert(encode_utf8(a) + encode_utf8(b) =~= encode_utf8(b));
    } else {
        assert((a + b).drop_first() =~= a.drop_first() + b);
        lemma_encode_utf8_concat(a.drop_first(), b);
        assert(encode_utf8(a + b) =~= encode_scalar(a[0] as u32) + (encode_utf8(a.drop_first())
            + encode_utf8(b)));
    }
}

/// Each character moves the byte position on by the length of its encoding.
pub proof fn lemma_byte_offset_step(s: Seq<char>, k: int)
    requires
        0 <= k < s.len(),
    ensures
        byte_offset(s, k + 1) == byte_offset(s, k) + encode_scalar(s[k] as u32).len(),
{
    assert(s.take(k + 1) =~= s.take(k) + seq![s[k]]);
    lemma_encode_utf8_concat(s.take(k), seq![s[k]]);
    let one = seq![s[k]];
    assert(one.drop_first() =~= Seq::<char>::empty());
    assert(encode_utf8(one.drop_first()) =~= Seq::<u8>::empty());
    assert(encode_utf8(one) =~= encode_scalar(s[k] as u32));
}

/// No prefix of a text takes more bytes than the whole text.
pub proof fn lemma_byte_offset_bound(s: Seq<char>, k: int)
    requires
        0 <= k <= s.len(),
    ensures
        byte_offset(s, k) <= encode_utf8(s).len(),
{
    assert(s =~= s.take(k) + s.skip(k));
    lemma_encode_utf8_concat(s.take(k), s.skip(k));
}

/// The number of bytes that `c` takes in UTF-8.
pub fn utf8_width(c: char) -> (w: usize)
    ensures
        w == encode_scalar(c as u32).len(),
{
    proof {
        char_is_scalar(c);
    }
    let u = c as u32;
    if u <= 0x7f {
        1
    } else if u <= 0x7ff {
        2
    } else if u <= 0xffff {
        3
    } else {
        4
    }
}

/// Lists the characters of `input`, each with the byte position at which it starts.
pub fn index_text(input: &str) -> (v: Vec<(usize, char)>)
    ensures
        is_index_of(v@, input@),
{
    let bytes = input.as_bytes();
    let total = bytes.len();
    let ghost s = input@;
    let mut v: Vec<(usize, char)> = Vec::new();
    let mut offset: usize = 0;
    for c in it: input.chars()
        invariant
            it.seq() == s,
            s == input@,
            total == encode_utf8(s).len(),
            v@.len() == it.index(),
            offset == byte_offset(s, it.index() as int),
            forall|k: int| 0 <= k < v@.len() ==> (#[trigger] v@[k]).1 == s[k] && v@[k].0 == byte_offset(s, k),
    {
        let ghost k = v@.len() as int;
        proof {
            lemma_byte_offset_step(s, k);
            lemma_byte_offset_bound(s, k + 1);
        }
        v.push((offset, c));
        offset = offset + utf8_width(c);
    }
    v
}

} // verus!
