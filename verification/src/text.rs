//! Names, descriptions and labels: bytes of the file that are read as text.

use vstd::prelude::*;
use vstd::utf8::{decode_utf8, encode_utf8, valid_utf8};

verus! {

/// `String::from_utf8` of the standard library: the string whose UTF-8
/// encoding is `bytes`, or nothing where `bytes` is no UTF-8 encoding.
#[verifier::external_body]
pub(crate) fn string_from_utf8(bytes: Vec<u8>) -> (text: Option<String>)
    ensures
        text is Some <==> valid_utf8(bytes@),
        text is Some ==> text->0@ == decode_utf8(bytes@),
{
    String::from_utf8(bytes).ok()
}

/// `String::push` of the standard library appends one character.
pub assume_specification[ String::push ](text: &mut String, ch: char)
    ensures
        final(text)@ == old(text)@.push(ch),
;

/// Whether the byte, read as the code point of the same number, is white
/// space: a tab, a line feed, a vertical tab, a form feed, a carriage
/// return, a space, a next-line mark or a no-break space.
pub open spec fn spec_is_whitespace(b: u8) -> bool {
    (9 <= b <= 13) || b == 32 || b == 0x85 || b == 0xA0
}

/// Whether the byte is white space.
pub fn is_whitespace(b: u8) -> (r: bool)
    ensures
        r == spec_is_whitespace(b),
{
    (9 <= b && b <= 13) || b == 32 || b == 0x85 || b == 0xA0
}

/// `s` without the white space that it begins with.
pub open spec fn spec_trim_start(s: Seq<u8>) -> Seq<u8>
    decreases s.len(),
{
    if s.len() > 0 && spec_is_whitespace(s[0]) {
        spec_trim_start(s.drop_first())
    } else {
        s
    }
}

/// `s` without the white space that it ends with.
pub open spec fn spec_trim_end(s: Seq<u8>) -> Seq<u8>
    decreases s.len(),
{
    if s.len() > 0 && spec_is_whitespace(s.last()) {
        spec_trim_end(s.drop_last())
    } else {
        s
    }
}

/// `s` without the white space at either end.
pub open spec fn spec_trim(s: Seq<u8>) -> Seq<u8> {
    spec_trim_end(spec_trim_start(s))
}

/// The text that the bytes spell, each byte standing for the code point of
/// the same number.
pub open spec fn spec_text(s: Seq<u8>) -> Seq<char> {
    Seq::new(s.len(), |i: int| s[i] as char)
}

/// Dropping leading white space leaves the part from the first byte that is
/// none.
pub proof fn lemma_trim_start(s: Seq<u8>, lo: int)
    requires
        0 <= lo <= s.len(),
        forall|i: int| 0 <= i < lo ==> spec_is_whitespace(#[trigger] s[i]),
        lo < s.len() ==> !spec_is_whitespace(s[lo]),
    ensures
        spec_trim_start(s) == s.subrange(lo, s.len() as int),
    decreases lo,
{
    if lo == 0 {
        assert(s.subrange(0, s.len() as int) =~= s);
    } else {
        let rest = s.drop_first();
        assert forall|i: int| 0 <= i < lo - 1 implies spec_is_whitespace(#[trigger] rest[i]) by {
            assert(rest[i] == s[i + 1]);
        }
        lemma_trim_start(rest, lo - 1);
        assert(rest.subrange(lo - 1, rest.len() as int) =~= s.subrange(lo, s.len() as int));
    }
}

/// Dropping trailing white space leaves the part up to the last byte that
/// is none.
pub proof fn lemma_trim_end(s: Seq<u8>, hi: int)
    requires
        0 <= hi <= s.len(),
        forall|i: int| hi <= i < s.len() ==> spec_is_whitespace(#[trigger] s[i]),
        0 < hi ==> !spec_is_whitespace(s[hi - 1]),
    ensures
        spec_trim_end(s) == s.subrange(0, hi),
    decreases s.len() - hi,
{
    if hi == s.len() {
        assert(s.subrange(0, hi) =~= s);
    } else {
        let rest = s.drop_last();
        lemma_trim_end(rest, hi);
        assert(rest.subrange(0, hi) =~= s.subrange(0, hi));
    }
}

/// The bounds of `bytes` without the white space at either end.
pub fn trim_bounds(bytes: &Vec<u8>) -> (bounds: (usize, usize))
    ensures
        bounds.0 <= bounds.1 <= bytes@.len(),
        spec_trim(bytes@) == bytes@.subrange(bounds.0 as int, bounds.1 as int),
{
    let n: usize = bytes.len();
    let mut lo: usize = 0;
    while lo < n && is_whitespace(bytes[lo])
        invariant
            lo <= n == bytes@.len(),
            forall|i: int| 0 <= i < lo ==> spec_is_whitespace(#[trigger] bytes@[i]),
        decreases n - lo,
    {
        lo += 1;
    }
    let mut hi: usize = n;
    while hi > lo && is_whitespace(bytes[hi - 1])
        invariant
            lo <= hi <= n == bytes@.len(),
            forall|i: int| hi <= i < n ==> spec_is_whitespace(#[trigger] bytes@[i]),
        decreases hi,
    {
        hi -= 1;
    }
    proof {
        lemma_trim_start(bytes@, lo as int);
        let tail = bytes@.subrange(lo as int, n as int);
        assert forall|i: int| hi - lo <= i < tail.len() implies spec_is_whitespace(
            #[trigger] tail[i],
        ) by {
            assert(tail[i] == bytes@[lo + i]);
        }
        lemma_trim_end(tail, hi - lo);
        assert(tail.subrange(0, hi - lo) =~= bytes@.subrange(lo as int, hi as int));
    }
    (lo, hi)
}

/// The text that `bytes[from..to]` spells.
pub fn text_of(bytes: &Vec<u8>, from: usize, to: usize) -> (text: String)
    requires
        from <= to <= bytes@.len(),
    ensures
        text@ == spec_text(bytes@.subrange(from as int, to as int)),
{
    let mut text: String = String::new();
    let mut i: usize = from;
    while i < to
        invariant
            from <= i <= to <= bytes@.len(),
            text@ == spec_text(bytes@.subrange(from as int, i as int)),
        decreases to - i,
    {
        text.push(bytes[i] as char);
        i += 1;
        assert(spec_text(bytes@.subrange(from as int, i as int)) =~= spec_text(
            bytes@.subrange(from as int, i - 1),
        ).push(bytes@[i - 1] as char));
    }
    text
}

/// Whether every byte is below 128.
pub open spec fn spec_is_ascii(s: Seq<u8>) -> bool {
    forall|i: int| 0 <= i < s.len() ==> #[trigger] s[i] < 0x80
}

/// Bytes below 128 are UTF-8, they decode to the characters of the same
/// numbers, and these encode to the same bytes.
pub proof fn lemma_ascii_decodes(s: Seq<u8>)
    requires
        spec_is_ascii(s),
    ensures
        valid_utf8(s),
        decode_utf8(s) == spec_text(s),
        encode_utf8(spec_text(s)) == s,
    decreases s.len(),
{
    assert(valid_utf8(s)) by {
        assert(s.subrange(0, 0) =~= Seq::<u8>::empty());
        assert(vstd::utf8::partial_valid_utf8(s, 0));
        assert forall|i: int| 0 <= i < s.len() implies #[trigger] vstd::utf8::is_leading_byte_width_1(
            s[i],
        ) by {
            assert(s[i] < 0x80);
        }
        vstd::utf8::partial_valid_utf8_extend_ascii_block(s, 0, s.len() as int);
        assert(s.subrange(0, s.len() as int) =~= s);
    }
    if s.len() == 0 {
        assert(decode_utf8(s) =~= spec_text(s));
    } else {
        let first = s[0];
        let rest = s.subrange(1, s.len() as int);
        assert(first < 0x80);
        assert((first & 0x7F) as u32 == first as u32) by (bit_vector)
            requires
                first < 0x80u8,
        ;
        assert(vstd::utf8::pop_first_scalar(s) == rest);
        assert forall|i: int| 0 <= i < rest.len() implies #[trigger] rest[i] < 0x80 by {
            assert(rest[i] == s[i + 1]);
        }
        lemma_ascii_decodes(rest);
        assert(decode_utf8(s) =~= spec_text(s));
    }
    vstd::utf8::decode_utf8_encode_utf8(s);
}

} // verus!
