use omena_lsp_server::documents::LspStyleHoverCandidate;
use omena_lsp_server::hover::{
    join_hover_sections, render_hover_location, render_source_hover_markdown, render_sass_symbol_hover_markdown,
    render_sass_symbol_label, render_style_hover_candidate_markdown, render_style_hover_markdown,
    SassSymbolClass, SassSymbolKind, StyleHoverRenderParts,
};
use omena_lsp_server::position::{ParserPositionV0, ParserRangeV0};
use omena_lsp_server::completion::{
    source_completion_class_token_prefix_from_span, source_completion_prefix_for_terminal_offset,
    source_completion_prefix_from_span,
};
use omena_lsp_server::labels::{
    diagnostic_severity_code, file_label_from_uri, is_css_identifier_continue,
    reference_lens_title,
};
use omena_lsp_server::path::normalize_path;
use omena_lsp_server::position::ParserByteSpanV0;
use omena_lsp_server::uri::{file_uri_to_path, hex_value, percent_decode_uri_path};

#[test]
fn decodes_hex_digits() {
    assert_eq!(hex_value(b'0'), Some(0));
    assert_eq!(hex_value(b'9'), Some(9));
    assert_eq!(hex_value(b'a'), Some(10));
    assert_eq!(hex_value(b'F'), Some(15));
    assert_eq!(hex_value(b'g'), None);
}

#[test]
fn percent_decodes_file_uris() {
    assert_eq!(
        file_uri_to_path("file:///workspace/app/%28marketing%29"),
        Some(b"/workspace/app/(marketing)".to_vec()),
    );
    assert_eq!(file_uri_to_path("untitled:Untitled-1"), None);
    assert_eq!(file_uri_to_path("file:///bad/%zz"), None);
    assert_eq!(file_uri_to_path("file:///bad/%2"), None);
    assert_eq!(file_uri_to_path("file:///bad/%ff"), None);
    assert_eq!(
        file_uri_to_path("file:///caf%C3%A9"),
        Some("/café".as_bytes().to_vec())
    );
    assert_eq!(percent_decode_uri_path(b"xx%41", 2), Some(b"A".to_vec()));
}

#[test]
fn normalizes_paths_lexically() {
    let path = normalize_path(b"/a/./b/../c//d/");
    assert!(path.absolute);
    assert_eq!(path.components, vec![b"a".to_vec(), b"c".to_vec(), b"d".to_vec()]);
    let relative = normalize_path(b"../x");
    assert!(!relative.absolute);
    assert_eq!(relative.components, vec![b"x".to_vec()]);
    let root = normalize_path(b"/..");
    assert!(root.absolute);
    assert!(root.components.is_empty());
}

#[test]
fn labels_files_and_reference_counts() {
    assert_eq!(file_label_from_uri("file:///src/App.module.scss"), "App.module.scss");
    assert_eq!(file_label_from_uri("file:///src/"), "file:///src/");
    assert_eq!(file_label_from_uri("plain"), "plain");
    assert_eq!(reference_lens_title(1), "1 reference");
    assert_eq!(reference_lens_title(0), "0 references");
    assert_eq!(reference_lens_title(12), "12 references");
    assert_eq!(reference_lens_title(1005), "1005 references");
}

#[test]
fn maps_severity_names_and_identifier_characters() {
    assert_eq!(diagnostic_severity_code("error"), Some(1));
    assert_eq!(diagnostic_severity_code("warning"), Some(2));
    assert_eq!(diagnostic_severity_code("information"), Some(3));
    assert_eq!(diagnostic_severity_code("hint"), Some(4));
    assert_eq!(diagnostic_severity_code("fatal"), None);
    assert!(is_css_identifier_continue('a'));
    assert!(is_css_identifier_continue('Z'));
    assert!(is_css_identifier_continue('7'));
    assert!(is_css_identifier_continue('-'));
    assert!(is_css_identifier_continue('_'));
    assert!(!is_css_identifier_continue('.'));
    assert!(!is_css_identifier_continue('é'));
}

#[test]
fn extracts_completion_prefixes() {
    let source = "styles.ro;";
    let span = ParserByteSpanV0 { start: 7, end: 9 };
    assert_eq!(
        source_completion_prefix_from_span(source, span, 9),
        Some("ro".to_string())
    );
    assert_eq!(
        source_completion_prefix_from_span(source, span, 8),
        Some("r".to_string())
    );
    assert_eq!(source_completion_prefix_from_span(source, span, 7), None);
    assert_eq!(
        source_completion_prefix_for_terminal_offset(source, span, 9),
        Some("ro".to_string())
    );
    assert_eq!(source_completion_prefix_for_terminal_offset(source, span, 8), None);
    let class_source = "\"btn primary-x\"";
    let class_span = ParserByteSpanV0 { start: 1, end: 14 };
    assert_eq!(
        source_completion_class_token_prefix_from_span(class_source, class_span, 14),
        Some("primary-x".to_string())
    );
    assert_eq!(
        source_completion_class_token_prefix_from_span(class_source, class_span, 5),
        None
    );
    assert_eq!(
        source_completion_class_token_prefix_from_span(class_source, class_span, 4),
        Some("btn".to_string())
    );
    assert_eq!(
        source_completion_prefix_from_span("a.b", ParserByteSpanV0 { start: 0, end: 3 }, 3),
        None
    );
}

#[test]
fn renders_selector_and_custom_property_hovers() {
    let uri = "file:///workspace-a/src/App.module.scss";
    assert_eq!(
        render_style_hover_markdown("selector", "root", uri, 0, ".root { color: red; }"),
        Some("**`.root`** - _App.module.scss:1_\n\n```scss\n.root { color: red; }\n```".to_string()),
    );
    assert_eq!(
        render_style_hover_markdown("customPropertyReference", "--brand", uri, 9, "color: var(--brand);"),
        Some("**`var(--brand)`** - _App.module.scss:10_\n\n```scss\ncolor: var(--brand);\n```".to_string()),
    );
    assert_eq!(
        render_style_hover_markdown("customPropertyDeclaration", "--brand", uri, 2, "--brand: red;"),
        Some("**`--brand`** - _App.module.scss:3_\n\n```scss\n--brand: red;\n```".to_string()),
    );
    assert_eq!(render_style_hover_markdown("sassVariableDeclaration", "gap", uri, 0, "$gap: 1px;"), None);
    assert_eq!(render_hover_location("file:///a/b/", 41), "file:///a/b/:42");
}

fn sass_class(kind: Option<SassSymbolKind>, is_declaration: bool) -> SassSymbolClass {
    SassSymbolClass { is_candidate: true, symbol_kind: kind, is_declaration }
}

#[test]
fn labels_sass_symbols_by_kind_and_namespace() {
    let variable = sass_class(Some(SassSymbolKind::Variable), false);
    assert_eq!(render_sass_symbol_label("gap", None, variable), "$gap");
    assert_eq!(render_sass_symbol_label("gap", Some("tokens"), variable), "tokens.$gap");
    let mixin_use = sass_class(Some(SassSymbolKind::Mixin), false);
    assert_eq!(render_sass_symbol_label("card", Some("ui"), mixin_use), "@include ui.card");
    let mixin_decl = sass_class(Some(SassSymbolKind::Mixin), true);
    assert_eq!(render_sass_symbol_label("card", Some("ui"), mixin_decl), "@mixin card");
    let function = sass_class(Some(SassSymbolKind::Function), false);
    assert_eq!(render_sass_symbol_label("rem", Some("math"), function), "math.rem()");
    assert_eq!(render_sass_symbol_label("other", Some("ns"), sass_class(None, false)), "other");
}

#[test]
fn renders_sass_symbol_hovers_with_value_and_signature() {
    let parts = StyleHoverRenderParts {
        snippet: "$gap: 4px;".to_string(),
        value: Some("4px".to_string()),
        signature: Some("@mixin card($size)".to_string()),
    };
    let variable_decl = sass_class(Some(SassSymbolKind::Variable), true);
    assert_eq!(
        render_sass_symbol_hover_markdown("$gap", "a.scss:2", variable_decl, &parts),
        "**`$gap`** - _a.scss:2_\n\nValue: `4px`\n\n```scss\n$gap: 4px;\n```",
    );
    let variable_use = sass_class(Some(SassSymbolKind::Variable), false);
    assert_eq!(
        render_sass_symbol_hover_markdown("$gap", "a.scss:2", variable_use, &parts),
        "**`$gap`** - _a.scss:2_\n\n```scss\n$gap: 4px;\n```",
    );
    let mixin_decl = sass_class(Some(SassSymbolKind::Mixin), true);
    assert_eq!(
        render_sass_symbol_hover_markdown("@mixin card", "a.scss:2", mixin_decl, &parts),
        "**`@mixin card($size)`** - _a.scss:2_\n\n```scss\n$gap: 4px;\n```",
    );
    let no_signature = StyleHoverRenderParts { signature: None, ..parts.clone() };
    assert_eq!(
        render_sass_symbol_hover_markdown("@mixin card", "a.scss:2", mixin_decl, &no_signature),
        "**`@mixin card`** - _a.scss:2_\n\n```scss\n$gap: 4px;\n```",
    );
}

#[test]
fn renders_any_style_candidate_hover() {
    let position = ParserPositionV0 { line: 4, character: 0 };
    let candidate = LspStyleHoverCandidate {
        kind: "sassVariableDeclaration",
        name: "gap".to_string(),
        range: ParserRangeV0 { start: position, end: position },
        source: "style",
        target_style_uri: None,
        namespace: None,
    };
    let parts = StyleHoverRenderParts { snippet: "$gap: 4px;".to_string(), value: None, signature: None };
    let uri = "file:///w/src/tokens.scss";
    assert_eq!(
        render_style_hover_candidate_markdown(uri, &candidate, &parts, sass_class(Some(SassSymbolKind::Variable), true)),
        "**`$gap`** - _tokens.scss:5_\n\n```scss\n$gap: 4px;\n```",
    );
    let plain = SassSymbolClass { is_candidate: false, symbol_kind: None, is_declaration: false };
    assert_eq!(render_style_hover_candidate_markdown(uri, &candidate, &parts, plain), "gap");
}

#[test]
fn joins_hover_sections_with_rules() {
    assert_eq!(join_hover_sections(&Vec::new()), None);
    assert_eq!(join_hover_sections(&vec!["a".to_string()]), Some("a".to_string()));
    assert_eq!(
        join_hover_sections(&vec!["a".to_string(), "b".to_string(), "c".to_string()]),
        Some("a\n\n---\n\nb\n\n---\n\nc".to_string()),
    );
}

#[test]
fn renders_source_hovers_or_the_selector_name() {
    assert_eq!(render_source_hover_markdown(&Vec::new(), "card"), "**`.card`**");
    assert_eq!(
        render_source_hover_markdown(&vec!["one".to_string(), "two".to_string()], "card"),
        "one\n\n---\n\ntwo",
    );
}

#[test]
fn rejects_bad_escapes_and_keeps_plain_paths() {
    assert_eq!(percent_decode_uri_path(b"%2", 0), None);
    assert_eq!(percent_decode_uri_path(b"%zz", 0), None);
    assert_eq!(percent_decode_uri_path(b"a%", 0), None);
    assert_eq!(percent_decode_uri_path(b"%FF", 0), None);
    assert_eq!(percent_decode_uri_path(b"/src/App.tsx", 0), Some(b"/src/App.tsx".to_vec()));
}

#[test]
fn normal_forms_normalize_to_themselves() {
    let once = normalize_path(b"/a/./b/../c");
    assert!(once.absolute);
    assert_eq!(once.components, vec![b"a".to_vec(), b"c".to_vec()]);
    let again = normalize_path(b"/a/c");
    assert_eq!(again, once);
}
