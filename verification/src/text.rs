use vstd::prelude::*;
use vstd::string::StringSliceAdditionalSpecFns;
use vstd::utf8::{
    encode_utf8, encode_utf8_decode_utf8, encode_utf8_valid_utf8, is_char_boundary,
    is_char_boundary_start_end_of_seq, length_of_first_scalar, pop_first_scalar, valid_utf8,
};

use crate::bytes::bytes_equal;

verus! {

/// Whether two strings hold the same text.
pub fn str_equal(a: &str, b: &str) -> (res: bool)
    ensures
        res == (a@ == b@),
{
    let res = bytes_equal(a.as_bytes(), b.as_bytes());
    proof {
        encode_utf8_decode_utf8(a@);
        encode_utf8_decode_utf8(b@);
    }
    res
}

/// In well-formed UTF-8, the byte after an ASCII byte starts a character (or ends the text).
pub proof fn lemma_boundary_after_ascii(bytes: Seq<u8>, p: int)
    requires
        valid_utf8(bytes),
        0 <= p < bytes.len(),
        bytes[p] < 0x80,
    ensures
        is_char_boundary(bytes, p + 1),
    decreases bytes.len(),
{
    reveal_with_fuel(is_char_boundary, 2);
    let first = length_of_first_scalar(bytes);
    let rest = pop_first_scalar(bytes);
    assert(rest.len() < bytes.len());
    if p == 0 {
        assert(first == 1);
        is_char_boundary_start_end_of_seq(rest);
    } else {
        assert(p >= first);
        assert(rest[p - first] == bytes[p]);
        lemma_boundary_after_ascii(rest, p - first);
    }
}

/// The sub-string of `s` between byte offsets `start` and `end`, when both lie on
/// character boundaries, as `str::get` gives it.
pub open spec fn spec_get(bytes: Seq<u8>, start: int, end: int) -> Option<Seq<u8>> {
    if start <= end && is_char_boundary(bytes, start) && is_char_boundary(bytes, end) {
        Some(bytes.subrange(start, end))
    } else {
        None
    }
}

/// Copies the bytes between two character boundaries of `s` into a new string.
pub fn substring(s: &str, start: usize, end: usize) -> (res: String)
    requires
        start <= end,
        is_char_boundary(s.spec_bytes(), start as int),
        is_char_boundary(s.spec_bytes(), end as int),
    ensures
        encode_utf8(res@) == s.spec_bytes().subrange(start as int, end as int),
{
    proof {
        encode_utf8_valid_utf8(s@);
    }
    let (head, _) = s.split_at(end);
    proof {
        assert(head.spec_bytes() == s.spec_bytes().subrange(0, end as int));
        assert(is_char_boundary(head.spec_bytes(), start as int)) by {
            lemma_char_boundary_prefix(s.spec_bytes(), end as int, start as int);
        }
        encode_utf8_valid_utf8(head@);
    }
    let (_, middle) = head.split_at(start);
    proof {
        assert(middle.spec_bytes() =~= s.spec_bytes().subrange(start as int, end as int));
    }
    middle.to_owned()
}

/// A character boundary before the end of a prefix cut at a boundary is a boundary
/// of the prefix.
pub proof fn lemma_char_boundary_prefix(bytes: Seq<u8>, cut: int, k: int)
    requires
        valid_utf8(bytes),
        is_char_boundary(bytes, cut),
        is_char_boundary(bytes, k),
        0 <= k <= cut,
    ensures
        valid_utf8(bytes.subrange(0, cut)),
        is_char_boundary(bytes.subrange(0, cut), k),
    decreases bytes.len(),
{
    vstd::utf8::valid_utf8_split(bytes, cut);
    if k > 0 {
        let first = length_of_first_scalar(bytes);
        let rest = pop_first_scalar(bytes);
        let prefix = bytes.subrange(0, cut);
        reveal_with_fuel(is_char_boundary, 2);
        assert(rest.len() < bytes.len());
        assert(k >= first) by {
            reveal_with_fuel(is_char_boundary, 2);
        }
        assert(cut >= first);
        assert(is_char_boundary(rest, cut - first));
        assert(is_char_boundary(rest, k - first));
        lemma_char_boundary_prefix(rest, cut - first, k - first);
        assert(length_of_first_scalar(prefix) == first);
        assert(pop_first_scalar(prefix) =~= rest.subrange(0, cut - first));
    }
}

} // verus!
