use vstd::prelude::*;
use vstd::string::StringSliceAdditionalSpecFns;
use vstd::utf8::{encode_utf8, encode_utf8_valid_utf8, is_char_boundary};

use crate::documents::LspTextDocumentState;
use crate::registry::text_bytes;
use crate::position::{
    byte_offset_for_parser_position, lemma_offset_of_none, lemma_offset_of_some, spec_offset_of,
    ParserByteSpanV0, ParserPositionV0,
};
use crate::text::{lemma_boundary_after_ascii, spec_get, substring};

verus! {

/// The bytes of CSS identifier characters. Those characters are all ASCII, so a
/// piece of UTF-8 text consists of them exactly when its bytes are these.
pub open spec fn css_identifier_byte(b: u8) -> bool {
    (48 <= b <= 57) || (97 <= b <= 122) || (65 <= b <= 90) || b == 45 || b == 95
}

/// A non-empty run of identifier bytes.
pub open spec fn is_identifier(text: Seq<u8>) -> bool {
    text.len() > 0 && forall|i: int| 0 <= i < text.len() ==> css_identifier_byte(#[trigger] text[i])
}

/// ASCII whitespace as `u8::is_ascii_whitespace` has it.
pub open spec fn ascii_whitespace(b: u8) -> bool {
    b == 32 || b == 9 || b == 10 || b == 12 || b == 13
}

/// Where the last whitespace-separated token of `bytes` starts.
pub open spec fn token_start(bytes: Seq<u8>) -> int
    decreases bytes.len(),
{
    if bytes.len() == 0 {
        0
    } else if ascii_whitespace(bytes.last()) {
        bytes.len() as int
    } else {
        token_start(bytes.drop_last())
    }
}

/// The smaller of a cursor offset and a span's end.
pub open spec fn clamp_end(span: ParserByteSpanV0, offset: int) -> int {
    if offset < span.end {
        offset
    } else {
        span.end as int
    }
}

/// The completion prefix typed inside `span` up to `offset`: the text from the
/// span's start to the cursor (or the span's end), if it is an identifier.
pub open spec fn span_prefix(source: Seq<u8>, span: ParserByteSpanV0, offset: int) -> Option<
    Seq<u8>,
> {
    let end = clamp_end(span, offset);
    if end < span.start {
        None
    } else {
        match spec_get(source, span.start as int, end) {
            Some(prefix) => if is_identifier(prefix) {
                Some(prefix)
            } else {
                None
            },
            None => None,
        }
    }
}

/// The completion prefix typed inside a class-string span: the last
/// whitespace-separated token before the cursor, if it is an identifier.
pub open spec fn class_token_prefix(source: Seq<u8>, span: ParserByteSpanV0, offset: int) -> Option<
    Seq<u8>,
> {
    let end = clamp_end(span, offset);
    if end < span.start {
        None
    } else {
        match spec_get(source, span.start as int, end) {
            Some(prefix) => {
                let token = prefix.subrange(token_start(prefix), prefix.len() as int);
                if is_identifier(token) {
                    Some(token)
                } else {
                    None
                }
            },
            None => None,
        }
    }
}

/// The bytes of an optional string.
pub open spec fn opt_string_bytes(s: Option<String>) -> Option<Seq<u8>> {
    match s {
        Some(t) => Some(encode_utf8(t@)),
        None => None,
    }
}

fn all_identifier_bytes(bytes: &[u8], start: usize, end: usize) -> (res: bool)
    requires
        start <= end <= bytes@.len(),
    ensures
        res == is_identifier(bytes@.subrange(start as int, end as int)),
{
    if start == end {
        return false;
    }
    let ghost t = bytes@.subrange(start as int, end as int);
    let mut i = start;
    while i < end
        invariant
            start <= i <= end <= bytes@.len(),
            t == bytes@.subrange(start as int, end as int),
            forall|j: int| 0 <= j < i - start ==> css_identifier_byte(#[trigger] t[j]),
        decreases end - i,
    {
        let b = bytes[i];
        if !((48 <= b && b <= 57) || (97 <= b && b <= 122) || (65 <= b && b <= 90) || b == 45
            || b == 95) {
            assert(t[i - start] == b);
            return false;
        }
        i = i + 1;
    }
    true
}

/// The completion prefix inside `span` at `offset` (see `span_prefix`).
pub fn source_completion_prefix_from_span(source: &str, span: ParserByteSpanV0, offset: usize) -> (res: Option<String>)
    ensures
        opt_string_bytes(res) == span_prefix(source.spec_bytes(), span, offset as int),
{
    let end = if offset < span.end {
        offset
    } else {
        span.end
    };
    if end < span.start {
        return None;
    }
    if !source.is_char_boundary(span.start) || !source.is_char_boundary(end) {
        return None;
    }
    proof {
        assert(end <= source.spec_bytes().len()) by {
            encode_utf8_valid_utf8(source@);
            lemma_char_boundary_in_range(source.spec_bytes(), end as int);
        }
    }
    let bytes = source.as_bytes();
    if !all_identifier_bytes(bytes, span.start, end) {
        return None;
    }
    Some(substring(source, span.start, end))
}

/// A character boundary lies within the text.
pub proof fn lemma_char_boundary_in_range(bytes: Seq<u8>, k: int)
    requires
        vstd::utf8::valid_utf8(bytes),
        is_char_boundary(bytes, k),
    ensures
        0 <= k <= bytes.len(),
    decreases bytes.len(),
{
    reveal_with_fuel(is_char_boundary, 2);
    if k != 0 {
        let rest = vstd::utf8::pop_first_scalar(bytes);
        lemma_char_boundary_in_range(rest, k - vstd::utf8::length_of_first_scalar(bytes));
    }
}

/// The completion prefix inside `span` when the cursor is at or past its end;
/// `None` when the cursor lies before the span's end.
pub fn source_completion_prefix_for_terminal_offset(
    source: &str,
    span: ParserByteSpanV0,
    offset: usize,
) -> (res: Option<String>)
    ensures
        opt_string_bytes(res) == if offset >= span.end {
            span_prefix(source.spec_bytes(), span, offset as int)
        } else {
            None
        },
{
    if offset >= span.end {
        source_completion_prefix_from_span(source, span, offset)
    } else {
        None
    }
}

/// The class-token completion prefix inside `span` at `offset` (see `class_token_prefix`).
pub fn source_completion_class_token_prefix_from_span(
    source: &str,
    span: ParserByteSpanV0,
    offset: usize,
) -> (res: Option<String>)
    ensures
        opt_string_bytes(res) == class_token_prefix(source.spec_bytes(), span, offset as int),
{
    let end = if offset < span.end {
        offset
    } else {
        span.end
    };
    if end < span.start {
        return None;
    }
    if !source.is_char_boundary(span.start) || !source.is_char_boundary(end) {
        return None;
    }
    let ghost b = source.spec_bytes();
    proof {
        encode_utf8_valid_utf8(source@);
        lemma_char_boundary_in_range(b, end as int);
    }
    let bytes = source.as_bytes();
    let ghost prefix = b.subrange(span.start as int, end as int);
    let mut token: usize = end;
    assert(prefix.subrange(0, prefix.len() as int) =~= prefix);
    while token > span.start && !(bytes[token - 1] == 32 || bytes[token - 1] == 9 || bytes[token
        - 1] == 10 || bytes[token - 1] == 12 || bytes[token - 1] == 13)
        invariant
            b == bytes@,
            span.start <= token <= end <= b.len(),
            prefix == b.subrange(span.start as int, end as int),
            token_start(prefix) == token_start(prefix.subrange(0, token - span.start)),
        decreases token,
    {
        let ghost p = prefix.subrange(0, token - span.start);
        assert(p.drop_last() =~= prefix.subrange(0, token - 1 - span.start));
        assert(p.last() == bytes@[token - 1]);
        token = token - 1;
    }
    proof {
        let p = prefix.subrange(0, token - span.start);
        if token > span.start {
            assert(p.last() == bytes@[token - 1]);
            assert(ascii_whitespace(p.last()));
        }
        assert(token_start(prefix) == token - span.start);
        assert(prefix.subrange(token - span.start, prefix.len() as int) =~= b.subrange(
            token as int,
            end as int,
        ));
    }
    if !all_identifier_bytes(bytes, token, end) {
        return None;
    }
    proof {
        if token > span.start {
            lemma_boundary_after_ascii(b, token - 1);
        }
    }
    Some(substring(source, token, end))
}

/// A span of source text together with the style document it names, if any.
#[derive(Debug, PartialEq, Eq)]
pub struct SourceTargetSpan {
    pub byte_span: ParserByteSpanV0,
    pub target_style_uri: Option<String>,
}

/// The spans of a source document's syntax that completion reads: accesses of
/// style module properties, selector references, and class-name string literals.
#[derive(Debug, Clone, PartialEq, Eq)]
pub struct SourceSyntaxSpans {
    pub style_property_accesses: Vec<SourceTargetSpan>,
    pub selector_references: Vec<SourceTargetSpan>,
    pub class_string_literals: Vec<ParserByteSpanV0>,
}

impl Clone for SourceTargetSpan {
    fn clone(&self) -> (res: Self)
        ensures
            res == *self,
    {
        SourceTargetSpan {
            byte_span: self.byte_span,
            target_style_uri: match &self.target_style_uri {
                Some(t) => Some(t.clone()),
                None => None,
            },
        }
    }
}

impl SourceSyntaxSpans {
    /// No spans at all.
    pub fn new() -> (res: Self)
        ensures
            res.is_empty(),
    {
        SourceSyntaxSpans {
            style_property_accesses: Vec::new(),
            selector_references: Vec::new(),
            class_string_literals: Vec::new(),
        }
    }

    /// Whether there are no spans.
    pub open spec fn is_empty(&self) -> bool {
        &&& self.style_property_accesses@.len() == 0
        &&& self.selector_references@.len() == 0
        &&& self.class_string_literals@.len() == 0
    }
}

/// Whether `offset` lies in `span`, both ends included.
pub open spec fn span_holds(span: ParserByteSpanV0, offset: int) -> bool {
    span.start <= offset <= span.end
}

/// The first of `spans` that holds `offset`.
pub open spec fn first_target_holding(spans: Seq<SourceTargetSpan>, offset: int) -> Option<int> {
    if exists|i: int| 0 <= i < spans.len() && span_holds(spans[i].byte_span, offset) {
        Some(
            choose|i: int|
                0 <= i < spans.len() && span_holds(spans[i].byte_span, offset) && forall|k: int|
                    0 <= k < i ==> !span_holds(#[trigger] spans[k].byte_span, offset),
        )
    } else {
        None
    }
}

/// The first of `spans` that holds `offset`.
pub open spec fn first_span_holding(spans: Seq<ParserByteSpanV0>, offset: int) -> Option<int> {
    if exists|i: int| 0 <= i < spans.len() && span_holds(spans[i], offset) {
        Some(
            choose|i: int|
                0 <= i < spans.len() && span_holds(spans[i], offset) && forall|k: int|
                    0 <= k < i ==> !span_holds(#[trigger] spans[k], offset),
        )
    } else {
        None
    }
}

/// The completion prefix of `span_prefix` where `offset` lies at or past the end
/// of `span`, and none before it.
pub open spec fn terminal_prefix(source: Seq<u8>, span: ParserByteSpanV0, offset: int) -> Option<
    Seq<u8>,
> {
    if offset >= span.end {
        span_prefix(source, span, offset)
    } else {
        None
    }
}

/// The view of an optional string.
pub open spec fn opt_text(s: Option<String>) -> Option<Seq<char>> {
    match s {
        Some(t) => Some(t@),
        None => None,
    }
}

/// What completion at byte `offset` of a source text works with: the style
/// document the completion is for (none: every one) and the prefix typed so far.
/// A style property access holding the offset comes first, then a selector
/// reference, then a class-name string literal; elsewhere there is no context.
pub open spec fn completion_context(source: Seq<u8>, spans: SourceSyntaxSpans, offset: int) -> Option<
    (Option<Seq<char>>, Option<Seq<u8>>),
> {
    match first_target_holding(spans.style_property_accesses@, offset) {
        Some(i) => {
            let t = spans.style_property_accesses@[i];
            Some((opt_text(t.target_style_uri), terminal_prefix(source, t.byte_span, offset)))
        },
        None => match first_target_holding(spans.selector_references@, offset) {
            Some(i) => {
                let t = spans.selector_references@[i];
                Some((opt_text(t.target_style_uri), terminal_prefix(source, t.byte_span, offset)))
            },
            None => match first_span_holding(spans.class_string_literals@, offset) {
                Some(i) => Some(
                    (None, class_token_prefix(source, spans.class_string_literals@[i], offset)),
                ),
                None => None,
            },
        },
    }
}

/// The view of a completion context.
pub open spec fn context_view(c: Option<(Option<String>, Option<String>)>) -> Option<
    (Option<Seq<char>>, Option<Seq<u8>>),
> {
    match c {
        Some((uri, prefix)) => Some((opt_text(uri), opt_string_bytes(prefix))),
        None => None,
    }
}

fn find_target_holding(spans: &Vec<SourceTargetSpan>, offset: usize) -> (res: Option<usize>)
    ensures
        match res {
            Some(i) => i < spans@.len() && first_target_holding(spans@, offset as int) == Some(i as int),
            None => first_target_holding(spans@, offset as int) is None,
        },
{
    let mut i: usize = 0;
    while i < spans.len()
        invariant
            i <= spans@.len(),
            forall|k: int| 0 <= k < i ==> !span_holds(#[trigger] spans@[k].byte_span, offset as int),
        decreases spans@.len() - i,
    {
        if spans[i].byte_span.start <= offset && offset <= spans[i].byte_span.end {
            let ghost pick = choose|j: int|
                0 <= j < spans@.len() && span_holds(spans@[j].byte_span, offset as int) && forall|
                    k: int,
                | 0 <= k < j ==> !span_holds(#[trigger] spans@[k].byte_span, offset as int);
            proof {
                assert(0 <= i < spans@.len() && span_holds(spans@[i as int].byte_span, offset as int));
                if pick < i {
                    assert(!span_holds(spans@[pick].byte_span, offset as int));
                } else if pick > i {
                    assert(!span_holds(spans@[i as int].byte_span, offset as int));
                }
            }
            return Some(i);
        }
        i = i + 1;
    }
    None
}

fn find_span_holding(spans: &Vec<ParserByteSpanV0>, offset: usize) -> (res: Option<usize>)
    ensures
        match res {
            Some(i) => i < spans@.len() && first_span_holding(spans@, offset as int) == Some(i as int),
            None => first_span_holding(spans@, offset as int) is None,
        },
{
    let mut i: usize = 0;
    while i < spans.len()
        invariant
            i <= spans@.len(),
            forall|k: int| 0 <= k < i ==> !span_holds(#[trigger] spans@[k], offset as int),
        decreases spans@.len() - i,
    {
        if spans[i].start <= offset && offset <= spans[i].end {
            let ghost pick = choose|j: int|
                0 <= j < spans@.len() && span_holds(spans@[j], offset as int) && forall|k: int|
                    0 <= k < j ==> !span_holds(#[trigger] spans@[k], offset as int);
            proof {
                assert(0 <= i < spans@.len() && span_holds(spans@[i as int], offset as int));
                if pick < i {
                    assert(!span_holds(spans@[pick], offset as int));
                } else if pick > i {
                    assert(!span_holds(spans@[i as int], offset as int));
                }
            }
            return Some(i);
        }
        i = i + 1;
    }
    None
}

/// The completion context at `position` of a source document (see
/// `completion_context`); none where the position names no character boundary of
/// its text.
pub fn source_completion_context_at_position(
    document: &LspTextDocumentState,
    position: ParserPositionV0,
) -> (res: Option<(Option<String>, Option<String>)>)
    ensures
        context_view(res) == match spec_offset_of(text_bytes(document.text), position) {
            Some(k) => completion_context(text_bytes(document.text), document.source_syntax, k),
            None => None,
        },
{
    let source = document.text.as_str();
    let spans = &document.source_syntax;
    let offset = match byte_offset_for_parser_position(source, position) {
        Some(k) => k,
        None => {
            proof {
                lemma_offset_of_none(source.spec_bytes(), position);
            }
            return None;
        },
    };
    proof {
        lemma_offset_of_some(source.spec_bytes(), position, offset as int);
    }
    if let Some(i) = find_target_holding(&spans.style_property_accesses, offset) {
        let access = &spans.style_property_accesses[i];
        return Some(
            (
                access.target_style_uri.clone(),
                source_completion_prefix_for_terminal_offset(source, access.byte_span, offset),
            ),
        );
    }
    if let Some(i) = find_target_holding(&spans.selector_references, offset) {
        let reference = &spans.selector_references[i];
        return Some(
            (
                reference.target_style_uri.clone(),
                source_completion_prefix_for_terminal_offset(source, reference.byte_span, offset),
            ),
        );
    }
    if let Some(i) = find_span_holding(&spans.class_string_literals, offset) {
        let span = spans.class_string_literals[i];
        return Some((None, source_completion_class_token_prefix_from_span(source, span, offset)));
    }
    None
}

} // verus!
