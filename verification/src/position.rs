use vstd::prelude::*;
use vstd::string::{StringExecFns, StringSliceAdditionalSpecFns};
use vstd::utf8::{
    encode_scalar, encode_utf8, encode_utf8_valid_utf8, is_char_boundary,
    is_char_boundary_iff_not_is_continuation_byte, is_char_boundary_start_end_of_seq,
    is_continuation_byte, valid_first_scalar, valid_utf8, valid_utf8_split,
};

verus! {

/// A zero-based line and UTF-16 column in a text document.
#[derive(Debug, Clone, Copy, PartialEq, Eq)]
pub struct ParserPositionV0 {
    pub line: usize,
    pub character: usize,
}

/// A half-open range between two positions.
#[derive(Debug, Clone, Copy, PartialEq, Eq)]
pub struct ParserRangeV0 {
    pub start: ParserPositionV0,
    pub end: ParserPositionV0,
}

/// A half-open span of byte offsets.
#[derive(Debug, Clone, Copy, PartialEq, Eq)]
pub struct ParserByteSpanV0 {
    pub start: usize,
    pub end: usize,
}

/// A line and column as mathematical integers.
pub struct LineColumn {
    pub line: int,
    pub column: int,
}

/// The number of UTF-16 code units of the character that a UTF-8 leading byte starts.
pub open spec fn utf16_width(lead: u8) -> int {
    if lead >= 0xf0 {
        2
    } else {
        1
    }
}

/// The effect of one byte of UTF-8 text on the current line and column: a
/// continuation byte has none, a newline starts the next line, and any other
/// leading byte moves the column by its character's UTF-16 width.
pub open spec fn advance(p: LineColumn, byte: u8) -> LineColumn {
    if is_continuation_byte(byte) {
        p
    } else if byte == 10 {
        LineColumn { line: p.line + 1, column: 0 }
    } else {
        LineColumn { line: p.line, column: p.column + utf16_width(byte) }
    }
}

/// The line and column reached after the first `k` bytes of `bytes`.
pub open spec fn position_after(bytes: Seq<u8>, k: int) -> LineColumn
    decreases k,
{
    if k <= 0 || bytes.len() < k {
        LineColumn { line: 0, column: 0 }
    } else {
        advance(position_after(bytes, k - 1), bytes[k - 1])
    }
}

/// Whether byte offset `k` is the start of a character or the end of the text.
pub open spec fn is_boundary(bytes: Seq<u8>, k: int) -> bool {
    0 <= k <= bytes.len() && (k == bytes.len() || !is_continuation_byte(bytes[k]))
}

/// Strict lexicographic order on line and column.
pub open spec fn before(a: LineColumn, b: LineColumn) -> bool {
    a.line < b.line || (a.line == b.line && a.column < b.column)
}

/// Whether `p` names the line and column `q`.
pub open spec fn names(p: ParserPositionV0, q: LineColumn) -> bool {
    p.line == q.line && p.character == q.column
}

/// Positions never move backwards as more text is read.
pub proof fn lemma_position_monotone(bytes: Seq<u8>, k1: int, k2: int)
    requires
        0 <= k1 <= k2 <= bytes.len(),
    ensures
        position_after(bytes, k1) == position_after(bytes, k2) || before(
            position_after(bytes, k1),
            position_after(bytes, k2),
        ),
    decreases k2 - k1,
{
    if k1 < k2 {
        lemma_position_monotone(bytes, k1, k2 - 1);
    }
}

/// Law: different character boundaries have different positions, the later one
/// after the earlier one; so a position names at most one boundary.
pub proof fn law_boundaries_strictly_ordered(bytes: Seq<u8>, k1: int, k2: int)
    requires
        is_boundary(bytes, k1),
        is_boundary(bytes, k2),
        k1 < k2,
    ensures
        before(position_after(bytes, k1), position_after(bytes, k2)),
{
    assert(position_after(bytes, k1 + 1) == advance(position_after(bytes, k1), bytes[k1]));
    lemma_position_monotone(bytes, k1 + 1, k2);
}

/// Lines and columns grow by at most two per byte read.
proof fn lemma_position_bound(bytes: Seq<u8>, k: int)
    requires
        0 <= k <= bytes.len(),
    ensures
        0 <= position_after(bytes, k).line <= k,
        0 <= position_after(bytes, k).column <= 2 * k,
    decreases k,
{
    if k > 0 {
        lemma_position_bound(bytes, k - 1);
    }
}

/// In UTF-8 text a byte that leads a four-byte character is followed by at least
/// three more, the next a continuation byte.
proof fn lemma_four_byte_lead(bytes: Seq<u8>, j: int)
    requires
        valid_utf8(bytes),
        0 <= j < bytes.len(),
        bytes[j] >= 0xf0,
    ensures
        j + 3 < bytes.len(),
        is_continuation_byte(bytes[j + 1]),
{
    is_char_boundary_iff_not_is_continuation_byte(bytes, j);
    valid_utf8_split(bytes, j);
    let rest = bytes.subrange(j, bytes.len() as int);
    assert(rest[0] == bytes[j]);
    assert(valid_first_scalar(rest));
    assert(rest[1] == bytes[j + 1]);
}

/// In UTF-8 text, lines and columns together grow by at most one per byte read,
/// but for the byte just after the lead of a four-byte character (two columns
/// for one byte).
proof fn lemma_text_position_bound(bytes: Seq<u8>, k: int)
    requires
        valid_utf8(bytes),
        0 <= k <= bytes.len(),
    ensures
        0 <= position_after(bytes, k).line,
        0 <= position_after(bytes, k).column,
        position_after(bytes, k).line + position_after(bytes, k).column <= k + 1,
        (k == 0 || bytes[k - 1] < 0xf0) ==> position_after(bytes, k).line + position_after(
            bytes,
            k,
        ).column <= k,
    decreases k,
{
    if k > 0 {
        lemma_text_position_bound(bytes, k - 1);
        if k > 1 && bytes[k - 2] >= 0xf0 {
            lemma_four_byte_lead(bytes, k - 2);
        }
    }
}

/// The position of byte offset `offset` in `source`, offsets past the end
/// standing for the end.
pub fn parser_position_for_byte_offset(source: &str, offset: usize) -> (res: ParserPositionV0)
    ensures
        names(
            res,
            position_after(
                source.spec_bytes(),
                if offset < source.spec_bytes().len() {
                    offset as int
                } else {
                    source.spec_bytes().len() as int
                },
            ),
        ),
{
    let bytes = source.as_bytes();
    let limit = if offset < bytes.len() {
        offset
    } else {
        bytes.len()
    };
    let mut line: usize = 0;
    let mut character: usize = 0;
    let mut i: usize = 0;
    proof {
        encode_utf8_valid_utf8(source@);
    }
    while i < limit
        invariant
            limit <= bytes@.len(),
            bytes@ == source.spec_bytes(),
            valid_utf8(bytes@),
            i <= limit,
            names(ParserPositionV0 { line, character }, position_after(bytes@, i as int)),
        decreases limit - i,
    {
        proof {
            lemma_text_position_bound(bytes@, i as int);
            if i > 0 && bytes@[i - 1] >= 0xf0 {
                lemma_four_byte_lead(bytes@, i - 1);
            }
            if bytes@[i as int] >= 0xf0 {
                lemma_four_byte_lead(bytes@, i as int);
            }
        }
        let byte = bytes[i];
        if byte >= 0x80 && byte <= 0xbf {
        } else if byte == 10 {
            line = line + 1;
            character = 0;
        } else if byte >= 0xf0 {
            character = character + 2;
        } else {
            character = character + 1;
        }
        i = i + 1;
    }
    ParserPositionV0 { line, character }
}

/// The byte offset of the character boundary at `position` in `source`, or `None`
/// where no boundary has that position (past the end of its line, inside a
/// surrogate pair, or past the last line).
pub fn byte_offset_for_parser_position(source: &str, position: ParserPositionV0) -> (res: Option<
    usize,
>)
    ensures
        match res {
            Some(k) => is_boundary(source.spec_bytes(), k as int) && names(
                position,
                position_after(source.spec_bytes(), k as int),
            ),
            None => forall|k: int|
                is_boundary(source.spec_bytes(), k) ==> !names(
                    position,
                    #[trigger] position_after(source.spec_bytes(), k),
                ),
        },
{
    let bytes = source.as_bytes();
    let ghost b = bytes@;
    let mut line: usize = 0;
    let mut character: usize = 0;
    let mut i: usize = 0;
    while i < bytes.len()
        invariant
            b == bytes@,
            b == source.spec_bytes(),
            i <= b.len(),
            line as int == position_after(b, i as int).line,
            line <= position.line,
            line == position.line ==> character as int == position_after(b, i as int).column
                && character <= position.character,
            forall|k: int|
                0 <= k < i && is_boundary(b, k) ==> !names(position, #[trigger] position_after(b, k)),
        decreases b.len() - i,
    {
        proof {
            lemma_position_bound(b, i as int);
            assert(position_after(b, i + 1) == advance(position_after(b, i as int), b[i as int]));
        }
        let byte = bytes[i];
        let continuation = byte >= 0x80 && byte <= 0xbf;
        if !continuation && line == position.line && character == position.character {
            return Some(i);
        }
        if continuation {
        } else if byte == 10 {
            if line == position.line {
                proof {
                    assert forall|k: int| is_boundary(b, k) implies !names(
                        position,
                        #[trigger] position_after(b, k),
                    ) by {
                        if k > i {
                            lemma_position_monotone(b, i + 1, k);
                        }
                    }
                }
                return None;
            }
            line = line + 1;
            character = 0;
        } else if line == position.line {
            let width: usize = if byte >= 0xf0 {
                2
            } else {
                1
            };
            if width > position.character - character {
                proof {
                    assert forall|k: int| is_boundary(b, k) implies !names(
                        position,
                        #[trigger] position_after(b, k),
                    ) by {
                        if k > i {
                            lemma_position_monotone(b, i + 1, k);
                        }
                    }
                }
                return None;
            }
            character = character + width;
        }
        i = i + 1;
    }
    if line == position.line && character == position.character {
        Some(bytes.len())
    } else {
        None
    }
}

/// Law: converting a character boundary to its position and back gives the same
/// boundary; no other boundary has that position.
pub proof fn law_offset_position_roundtrip(bytes: Seq<u8>, k: int, other: int)
    requires
        is_boundary(bytes, k),
        is_boundary(bytes, other),
        position_after(bytes, other) == position_after(bytes, k),
    ensures
        other == k,
{
    if other < k {
        law_boundaries_strictly_ordered(bytes, other, k);
    } else if k < other {
        law_boundaries_strictly_ordered(bytes, k, other);
    }
}

/// UTF-8 encoding of a concatenation is the concatenation of the encodings.
pub proof fn lemma_encode_utf8_concat(a: Seq<char>, b: Seq<char>)
    ensures
        encode_utf8(a + b) == encode_utf8(a) + encode_utf8(b),
    decreases a.len(),
{
    if a.len() > 0 {
        lemma_encode_utf8_concat(a.drop_first(), b);
        assert((a + b).drop_first() =~= a.drop_first() + b);
        assert((a + b)[0] == a[0]);
        assert(encode_scalar(a[0] as u32) + (encode_utf8(a.drop_first()) + encode_utf8(b))
            =~= encode_scalar(a[0] as u32) + encode_utf8(a.drop_first()) + encode_utf8(b));
    } else {
        assert(a + b =~= b);
    }
}

/// In well-formed UTF-8, the boundaries of `is_boundary` are the character boundaries.
pub proof fn lemma_boundary_is_char_boundary(bytes: Seq<u8>, k: int)
    requires
        valid_utf8(bytes),
        is_boundary(bytes, k),
    ensures
        is_char_boundary(bytes, k),
{
    is_char_boundary_start_end_of_seq(bytes);
    if k < bytes.len() {
        is_char_boundary_iff_not_is_continuation_byte(bytes, k);
    }
}

/// The text after replacing the bytes from the boundary at `range.start` to the
/// boundary at `range.end` by `next_text`: `None` where either position names no
/// boundary or the start lies after the end.
pub fn apply_text_document_content_change(
    text: &str,
    range: ParserRangeV0,
    next_text: &str,
) -> (res: Option<String>)
    ensures
        match (
            spec_offset_of(text.spec_bytes(), range.start),
            spec_offset_of(text.spec_bytes(), range.end),
        ) {
            (Some(s), Some(e)) => if s <= e {
                res matches Some(t) && encode_utf8(t@) == text.spec_bytes().subrange(0, s)
                    + next_text.spec_bytes() + text.spec_bytes().subrange(
                    e,
                    text.spec_bytes().len() as int,
                )
            } else {
                res is None
            },
            _ => res is None,
        },
{
    let start = match byte_offset_for_parser_position(text, range.start) {
        Some(offset) => offset,
        None => {
            proof {
                lemma_offset_of_none(text.spec_bytes(), range.start);
            }
            return None;
        },
    };
    let end = match byte_offset_for_parser_position(text, range.end) {
        Some(offset) => offset,
        None => {
            proof {
                lemma_offset_of_none(text.spec_bytes(), range.end);
            }
            return None;
        },
    };
    proof {
        lemma_offset_of_some(text.spec_bytes(), range.start, start as int);
        lemma_offset_of_some(text.spec_bytes(), range.end, end as int);
    }
    if start > end {
        return None;
    }
    let ghost b = text.spec_bytes();
    proof {
        encode_utf8_valid_utf8(text@);
        lemma_boundary_is_char_boundary(b, start as int);
        lemma_boundary_is_char_boundary(b, end as int);
    }
    let (left, _) = text.split_at(start);
    let (_, right) = text.split_at(end);
    let mut result = left.to_owned();
    result.append(next_text);
    result.append(right);
    proof {
        lemma_encode_utf8_concat(left@, next_text@);
        lemma_encode_utf8_concat(left@ + next_text@, right@);
    }
    Some(result)
}

/// The boundary whose position is `p`, if there is one.
pub open spec fn spec_offset_of(bytes: Seq<u8>, p: ParserPositionV0) -> Option<int> {
    if exists|k: int| is_boundary(bytes, k) && names(p, position_after(bytes, k)) {
        Some(choose|k: int| is_boundary(bytes, k) && names(p, position_after(bytes, k)))
    } else {
        None
    }
}

/// A boundary that a position names is the one `spec_offset_of` picks.
pub proof fn lemma_offset_of_some(bytes: Seq<u8>, p: ParserPositionV0, k: int)
    requires
        is_boundary(bytes, k),
        names(p, position_after(bytes, k)),
    ensures
        spec_offset_of(bytes, p) == Some(k),
{
    let c = choose|j: int| is_boundary(bytes, j) && names(p, position_after(bytes, j));
    law_offset_position_roundtrip(bytes, k, c);
}

/// A position that names no boundary has no offset.
pub proof fn lemma_offset_of_none(bytes: Seq<u8>, p: ParserPositionV0)
    requires
        forall|k: int| is_boundary(bytes, k) ==> !names(p, #[trigger] position_after(bytes, k)),
    ensures
        spec_offset_of(bytes, p) is None,
{
}

/// Law: a character boundary's position leads back to that boundary, and no other
/// boundary has it; the position found for an offset is the only one that names
/// its line and column.
pub proof fn law_offset_position_offset(bytes: Seq<u8>, k: int, p: ParserPositionV0, q: ParserPositionV0)
    requires
        valid_utf8(bytes),
        0 <= k <= bytes.len(),
        is_char_boundary(bytes, k),
        names(p, position_after(bytes, k)),
    ensures
        is_boundary(bytes, k),
        spec_offset_of(bytes, p) == Some(k),
        forall|o: int| is_boundary(bytes, o) && names(p, #[trigger] position_after(bytes, o)) ==> o == k,
        names(q, position_after(bytes, k)) ==> q == p,
{
    if k < bytes.len() {
        is_char_boundary_iff_not_is_continuation_byte(bytes, k);
    }
    lemma_offset_of_some(bytes, p, k);
    assert forall|o: int| is_boundary(bytes, o) && names(p, #[trigger] position_after(bytes, o)) implies o
        == k by {
        law_offset_position_roundtrip(bytes, k, o);
    }
}

/// The number of newline bytes in `bytes`.
pub open spec fn newline_count(bytes: Seq<u8>) -> nat
    decreases bytes.len(),
{
    if bytes.len() == 0 {
        0
    } else {
        newline_count(bytes.drop_last()) + if bytes.last() == 10 {
            1nat
        } else {
            0nat
        }
    }
}

/// The UTF-16 code units of the characters that `bytes` start: the width of each
/// leading byte, continuation bytes counting nothing.
pub open spec fn utf16_units(bytes: Seq<u8>) -> int
    decreases bytes.len(),
{
    if bytes.len() == 0 {
        0
    } else {
        utf16_units(bytes.drop_last()) + if is_continuation_byte(bytes.last()) {
            0int
        } else {
            utf16_width(bytes.last())
        }
    }
}

proof fn lemma_position_counts_lines(bytes: Seq<u8>, k: int)
    requires
        0 <= k <= bytes.len(),
    ensures
        position_after(bytes, k).line == newline_count(bytes.subrange(0, k)),
    decreases k,
{
    if k == 0 {
        assert(bytes.subrange(0, 0) =~= Seq::<u8>::empty());
    } else {
        lemma_position_counts_lines(bytes, k - 1);
        assert(bytes.subrange(0, k).drop_last() =~= bytes.subrange(0, k - 1));
    }
}

proof fn lemma_position_counts_columns(bytes: Seq<u8>, k: int, j: int)
    requires
        0 <= j <= k <= bytes.len(),
        j == 0 || bytes[j - 1] == 10,
        forall|i: int| j <= i < k ==> bytes[i] != 10,
    ensures
        position_after(bytes, k).column == utf16_units(bytes.subrange(j, k)),
    decreases k,
{
    if k == j {
        assert(bytes.subrange(j, k) =~= Seq::<u8>::empty());
    } else {
        lemma_position_counts_columns(bytes, k - 1, j);
        assert(bytes.subrange(j, k).drop_last() =~= bytes.subrange(j, k - 1));
        assert(bytes[k - 1] != 10);
    }
}

/// Law: the line reached after `k` bytes is the number of newlines among them, and
/// the column is the UTF-16 width of the characters since the start of that line
/// (`j`: just after the last newline, or the start where there is none).
pub proof fn law_position_counts_lines_and_columns(bytes: Seq<u8>, k: int, j: int)
    requires
        0 <= j <= k <= bytes.len(),
        j == 0 || bytes[j - 1] == 10,
        forall|i: int| j <= i < k ==> bytes[i] != 10,
    ensures
        position_after(bytes, k).line == newline_count(bytes.subrange(0, k)),
        position_after(bytes, k).column == utf16_units(bytes.subrange(j, k)),
{
    lemma_position_counts_lines(bytes, k);
    lemma_position_counts_columns(bytes, k, j);
}

} // verus!
