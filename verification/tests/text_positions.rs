use omena_lsp_server::position::{
    apply_text_document_content_change, byte_offset_for_parser_position,
    parser_position_for_byte_offset, ParserPositionV0, ParserRangeV0,
};

fn pos(line: usize, character: usize) -> ParserPositionV0 {
    ParserPositionV0 { line, character }
}

#[test]
fn converts_between_offsets_and_utf16_positions() {
    let text = "a😀b\ncd";
    assert_eq!(parser_position_for_byte_offset(text, 0), pos(0, 0));
    assert_eq!(parser_position_for_byte_offset(text, 1), pos(0, 1));
    assert_eq!(parser_position_for_byte_offset(text, 5), pos(0, 3));
    assert_eq!(parser_position_for_byte_offset(text, 6), pos(0, 4));
    assert_eq!(parser_position_for_byte_offset(text, 7), pos(1, 0));
    assert_eq!(parser_position_for_byte_offset(text, 100), pos(1, 2));
    assert_eq!(byte_offset_for_parser_position(text, pos(0, 3)), Some(5));
    assert_eq!(byte_offset_for_parser_position(text, pos(0, 2)), None);
    assert_eq!(byte_offset_for_parser_position(text, pos(0, 9)), None);
    assert_eq!(byte_offset_for_parser_position(text, pos(1, 2)), Some(9));
    assert_eq!(byte_offset_for_parser_position(text, pos(2, 0)), None);
    for offset in [0usize, 1, 5, 6, 7, 8, 9] {
        let position = parser_position_for_byte_offset(text, offset);
        assert_eq!(byte_offset_for_parser_position(text, position), Some(offset));
    }
}

#[test]
fn applies_ranged_content_changes() {
    let updated = apply_text_document_content_change(
        "const tone = 'red';",
        ParserRangeV0 {
            start: pos(0, 14),
            end: pos(0, 17),
        },
        "green",
    );
    assert_eq!(updated.as_deref(), Some("const tone = 'green';"));
    let backwards = apply_text_document_content_change(
        "abc",
        ParserRangeV0 {
            start: pos(0, 2),
            end: pos(0, 1),
        },
        "x",
    );
    assert_eq!(backwards, None);
    let outside = apply_text_document_content_change(
        "abc",
        ParserRangeV0 {
            start: pos(3, 0),
            end: pos(3, 0),
        },
        "x",
    );
    assert_eq!(outside, None);
}

#[test]
fn counts_lines_and_utf16_columns_before_an_offset() {
    assert_eq!(parser_position_for_byte_offset("ab\ncd", 3), pos(1, 0));
    assert_eq!(parser_position_for_byte_offset("ab\ncd", 99), pos(1, 2));
    assert_eq!(parser_position_for_byte_offset("ab\ncd", 2), pos(0, 2));
}
