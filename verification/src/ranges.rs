use vstd::prelude::*;
use vstd::string::StringSliceAdditionalSpecFns;

use crate::position::{
    names, parser_position_for_byte_offset, position_after, ParserByteSpanV0, ParserPositionV0,
    ParserRangeV0,
};

verus! {

/// `a` lies at or after `b`.
pub open spec fn at_or_after(a: ParserPositionV0, b: ParserPositionV0) -> bool {
    a.line > b.line || (a.line == b.line && a.character >= b.character)
}

/// `a` lies strictly before `b`.
pub open spec fn strictly_before(a: ParserPositionV0, b: ParserPositionV0) -> bool {
    a.line < b.line || (a.line == b.line && a.character < b.character)
}

/// `range` contains `position`: from its start, inclusive, to its end, exclusive.
pub open spec fn range_contains(range: ParserRangeV0, position: ParserPositionV0) -> bool {
    at_or_after(position, range.start) && strictly_before(position, range.end)
}

/// Whether `position` lies at or after `start`.
pub fn parser_position_is_after_or_equal(position: ParserPositionV0, start: ParserPositionV0) -> (res: bool)
    ensures
        res == at_or_after(position, start),
{
    position.line > start.line || (position.line == start.line && position.character >= start.character)
}

/// Whether `position` lies strictly before `end`.
pub fn parser_position_is_before(position: ParserPositionV0, end: ParserPositionV0) -> (res: bool)
    ensures
        res == strictly_before(position, end),
{
    position.line < end.line || (position.line == end.line && position.character < end.character)
}

/// Whether `range` contains `position`.
pub fn parser_range_contains_position(range: &ParserRangeV0, position: ParserPositionV0) -> (res: bool)
    ensures
        res == range_contains(*range, position),
{
    parser_position_is_after_or_equal(position, range.start) && parser_position_is_before(
        position,
        range.end,
    )
}

/// The range of positions that a byte span covers in `source` (offsets past the
/// end standing for the end).
pub fn parser_range_for_byte_span(source: &str, span: ParserByteSpanV0) -> (res: ParserRangeV0)
    ensures
        names(
            res.start,
            position_after(
                source.spec_bytes(),
                if span.start < source.spec_bytes().len() {
                    span.start as int
                } else {
                    source.spec_bytes().len() as int
                },
            ),
        ),
        names(
            res.end,
            position_after(
                source.spec_bytes(),
                if span.end < source.spec_bytes().len() {
                    span.end as int
                } else {
                    source.spec_bytes().len() as int
                },
            ),
        ),
{
    ParserRangeV0 {
        start: parser_position_for_byte_offset(source, span.start),
        end: parser_position_for_byte_offset(source, span.end),
    }
}

} // verus!
