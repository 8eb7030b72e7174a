//! Text as bytes: comparing texts, and cutting them at character boundaries.

use vstd::prelude::*;
use vstd::string::*;
use vstd::utf8::{
    decode_utf8, encode_utf8, is_char_boundary, is_continuation_byte, length_of_first_scalar,
    pop_first_scalar, valid_utf8,
};

verus! {

/// Two strings with the same UTF-8 bytes hold the same characters.
pub proof fn lemma_same_bytes_same_text(a: Seq<char>, b: Seq<char>)
    requires
        encode_utf8(a) == encode_utf8(b),
    ensures
        a == b,
{
    vstd::utf8::encode_utf8_decode_utf8(a);
    vstd::utf8::encode_utf8_decode_utf8(b);
    assert(decode_utf8(encode_utf8(a)) == decode_utf8(encode_utf8(b)));
}

/// Whether two byte strings are equal.
pub fn bytes_eq(a: &[u8], b: &[u8]) -> (r: bool)
    ensures
        r == (a@ == b@),
{
    if a.len() != b.len() {
        return false;
    }
    let mut i: usize = 0;
    while i < a.len()
        invariant
            a@.len() == b@.len(),
            0 <= i <= a@.len(),
            forall|k: int| 0 <= k < i ==> a@[k] == b@[k],
        decreases a@.len() - i,
    {
        if a[i] != b[i] {
            return false;
        }
        i += 1;
    }
    assert(a@ =~= b@);
    true
}

/// Whether two strings hold the same text.
pub fn str_eq(a: &str, b: &str) -> (r: bool)
    ensures
        r == (a@ == b@),
{
    let r = bytes_eq(a.as_bytes(), b.as_bytes());
    proof {
        if r {
            lemma_same_bytes_same_text(a@, b@);
        }
    }
    r
}

/// In well-formed text a position is a character boundary if it is the end
/// of the text or the byte there is not a continuation byte.
pub proof fn lemma_boundary_before(s: Seq<u8>, i: int)
    requires
        valid_utf8(s),
        0 <= i <= s.len(),
        i < s.len() ==> !is_continuation_byte(s[i]),
    ensures
        is_char_boundary(s, i),
{
    if i < s.len() {
        vstd::utf8::is_char_boundary_iff_not_is_continuation_byte(s, i);
    } else {
        vstd::utf8::is_char_boundary_start_end_of_seq(s);
    }
}

/// In well-formed text a byte below 128 is a character of its own: there is
/// a character boundary before it and one after it.
pub proof fn lemma_boundary_after_ascii(s: Seq<u8>, i: int)
    requires
        valid_utf8(s),
        0 <= i < s.len(),
        s[i] <= 0x7f,
    ensures
        is_char_boundary(s, i),
        is_char_boundary(s, i + 1),
    decreases s.len(),
{
    lemma_boundary_before(s, i);
    let first = length_of_first_scalar(s);
    let tail = pop_first_scalar(s);
    assert(valid_utf8(tail));
    if i == 0 {
        assert(first == 1);
        assert(is_char_boundary(tail, 0));
        assert(is_char_boundary(s, 1));
    } else {
        assert(is_char_boundary(tail, i - first));
        assert(i - first >= 0) by {
            if i - first < 0 {
                assert(!is_char_boundary(tail, i - first));
            }
        }
        assert(tail[i - first] == s[i]);
        lemma_boundary_after_ascii(tail, i - first);
        assert(is_char_boundary(tail, i + 1 - first));
        assert(is_char_boundary(s, i + 1));
    }
}

/// In well-formed text, where every byte from one character boundary up to
/// a later position is below 128, that position is a character boundary.
pub proof fn lemma_boundary_after_run(s: Seq<u8>, from: int, to: int)
    requires
        valid_utf8(s),
        0 <= from <= to <= s.len(),
        is_char_boundary(s, from),
        forall|k: int| from <= k < to ==> #[trigger] s[k] <= 0x7f,
    ensures
        is_char_boundary(s, to),
    decreases to - from,
{
    if from < to {
        lemma_boundary_after_run(s, from, to - 1);
        lemma_boundary_after_ascii(s, to - 1);
    }
}

/// The text between two character boundaries: splitting the bytes there
/// splits the characters.
pub fn slice_between<'a>(input: &'a str, start: usize, end: usize) -> (r: &'a str)
    requires
        start <= end <= input.spec_bytes().len(),
        is_char_boundary(input.spec_bytes(), start as int),
        is_char_boundary(input.spec_bytes(), end as int),
    ensures
        r.spec_bytes() == input.spec_bytes().subrange(start as int, end as int),
        r@ == decode_utf8(input.spec_bytes().subrange(start as int, end as int)),
{
    let ghost s = input.spec_bytes();
    proof {
        vstd::utf8::encode_utf8_valid_utf8(input@);
    }
    let (head, _) = input.split_at(end);
    proof {
        vstd::utf8::valid_utf8_split(s, end as int);
        assert(head.spec_bytes() =~= s.subrange(0, end as int));
        lemma_boundary_within(s, start as int, end as int);
    }
    let (_, r) = head.split_at(start);
    proof {
        assert(r.spec_bytes() =~= s.subrange(start as int, end as int));
        vstd::utf8::encode_utf8_decode_utf8(r@);
    }
    r
}

/// A character boundary of a text is one of each prefix of the text that
/// ends at a later character boundary.
pub proof fn lemma_boundary_within(s: Seq<u8>, start: int, end: int)
    requires
        valid_utf8(s),
        0 <= start <= end <= s.len(),
        is_char_boundary(s, start),
        is_char_boundary(s, end),
    ensures
        is_char_boundary(s.subrange(0, end), start),
{
    let head = s.subrange(0, end);
    vstd::utf8::valid_utf8_split(s, end);
    if start < end {
        vstd::utf8::is_char_boundary_iff_not_is_continuation_byte(s, start);
        vstd::utf8::is_char_boundary_iff_not_is_continuation_byte(head, start);
    } else {
        vstd::utf8::is_char_boundary_start_end_of_seq(head);
    }
}

} // verus!
