use omena_lsp_server::completion::{SourceSyntaxSpans, SourceTargetSpan};
use omena_lsp_server::completion::source_completion_context_at_position;
use omena_lsp_server::definitions::{
    first_style_document_for_workspace, source_reference_candidate,
    source_selector_diagnostic_target, source_documents_for_workspace,
    style_selector_definitions_from_candidates, style_selector_definitions_from_open_documents,
};
use omena_lsp_server::documents::{
    DocumentIndexes, LspStyleDocumentSummary, LspStyleHoverCandidate, LspTextDocumentState,
};
use omena_lsp_server::labels::reference_lens_title;
use omena_lsp_server::locations::{group_locations_by_name, plan_selector_code_lenses, LspLocation};
use omena_lsp_server::shell::workspace_folder_compatible;
use omena_lsp_server::position::{ParserByteSpanV0, ParserPositionV0, ParserRangeV0};
use omena_lsp_server::providers::{
    candidates_at_position, custom_property_reference_ranges, custom_property_rename_ranges,
    first_candidate_at, resolve_style_hover_candidates, source_candidate_definition_lookup_name,
    source_candidate_matches_target_style, source_completion_labels, style_completion_items,
    style_definition_target, style_reference_source, assemble_references, StyleReferenceSource,
};
use omena_lsp_server::shell::LspShellState;

fn pos(line: usize, character: usize) -> ParserPositionV0 {
    ParserPositionV0 { line, character }
}

fn range(line: usize, start: usize, end: usize) -> ParserRangeV0 {
    ParserRangeV0 {
        start: pos(line, start),
        end: pos(line, end),
    }
}

fn candidate(kind: &'static str, name: &str, at: ParserRangeV0) -> LspStyleHoverCandidate {
    LspStyleHoverCandidate {
        kind,
        name: name.to_string(),
        range: at,
        source: "styleDocument",
        target_style_uri: None,
        namespace: None,
    }
}

fn sample_candidates() -> Vec<LspStyleHoverCandidate> {
    vec![
        candidate("selector", "root", range(0, 1, 5)),
        candidate("customPropertyDeclaration", "--brand", range(0, 8, 15)),
        candidate("customPropertyReference", "--brand", range(1, 17, 24)),
        candidate("selector", "root", range(2, 1, 5)),
        candidate("customPropertyReference", "--brand", range(0, 30, 37)),
        candidate("customPropertyReference", "--other", range(3, 4, 11)),
    ]
}

#[test]
fn finds_candidates_at_a_position() {
    let candidates = sample_candidates();
    let found = candidates_at_position(&candidates, pos(1, 20));
    assert_eq!(found.len(), 1);
    assert_eq!(found[0].name, "--brand");
    assert_eq!(first_candidate_at(&candidates, pos(0, 3)), Some(0));
    assert_eq!(first_candidate_at(&candidates, pos(0, 5)), None);
    assert_eq!(first_candidate_at(&candidates, pos(5, 0)), None);
}

#[test]
fn offers_each_style_completion_label_once() {
    let items = style_completion_items(&sample_candidates());
    let labels: Vec<(&str, u8, &str)> = items
        .iter()
        .map(|item| (item.label.as_str(), item.kind, item.detail))
        .collect();
    assert_eq!(
        labels,
        vec![
            (".root", 7, "CSS Module selector"),
            ("--brand", 10, "CSS custom property"),
        ],
    );
}

#[test]
fn custom_property_reference_resolves_to_its_first_declaration() {
    let mut candidates = sample_candidates();
    assert_eq!(style_definition_target(&candidates, 2), 1);
    assert_eq!(style_definition_target(&candidates, 0), 0);
    // No declaration of --other: the reference resolves to itself.
    assert_eq!(style_definition_target(&candidates, 5), 5);
    candidates.insert(0, candidate("customPropertyDeclaration", "--brand", range(9, 0, 7)));
    assert_eq!(style_definition_target(&candidates, 3), 0);
}

#[test]
fn lists_custom_property_references_in_position_order() {
    let candidates = sample_candidates();
    assert_eq!(
        custom_property_reference_ranges(&candidates, 2, false),
        vec![range(0, 30, 37), range(1, 17, 24)],
    );
    assert_eq!(
        custom_property_reference_ranges(&candidates, 2, true),
        vec![range(0, 8, 15), range(0, 30, 37), range(1, 17, 24)],
    );
}

#[test]
fn renames_every_custom_property_of_the_same_name() {
    let candidates = sample_candidates();
    assert_eq!(
        custom_property_rename_ranges(&candidates, 1),
        Some(vec![range(0, 8, 15), range(0, 30, 37), range(1, 17, 24)]),
    );
    assert_eq!(custom_property_rename_ranges(&candidates, 0), None);
}

#[test]
fn source_candidates_match_target_styles_and_lookup_names() {
    let mut reference = candidate("sourceSelectorReference", "foo", range(0, 0, 3));
    assert!(source_candidate_matches_target_style(&reference, Some("file:///a.module.scss")));
    reference.target_style_uri = Some("file:///b.module.scss".to_string());
    assert!(!source_candidate_matches_target_style(&reference, Some("file:///a.module.scss")));
    assert!(source_candidate_matches_target_style(&reference, Some("file:///b.module.scss")));
    assert!(source_candidate_matches_target_style(&reference, None));
    assert_eq!(source_candidate_definition_lookup_name(&reference), "foo");
    let prefix = candidate("sourceSelectorPrefixReference", "btn-", range(0, 0, 4));
    assert_eq!(source_candidate_definition_lookup_name(&prefix), "");
}

#[test]
fn source_completion_labels_are_sorted_unique_and_filtered() {
    let definitions = vec![
        (
            "file:///a.module.scss".to_string(),
            candidate("selector", "button", range(0, 1, 7)),
        ),
        (
            "file:///b.module.scss".to_string(),
            candidate("selector", "banner", range(0, 1, 7)),
        ),
        (
            "file:///a.module.scss".to_string(),
            candidate("selector", "alert", range(1, 1, 6)),
        ),
        (
            "file:///a.module.scss".to_string(),
            candidate("selector", "button", range(2, 1, 7)),
        ),
    ];
    assert_eq!(
        source_completion_labels(&definitions, None, None),
        vec!["alert".to_string(), "banner".to_string(), "button".to_string()],
    );
    assert_eq!(
        source_completion_labels(&definitions, Some("file:///a.module.scss"), None),
        vec!["alert".to_string(), "button".to_string()],
    );
    assert_eq!(
        source_completion_labels(&definitions, None, Some("b")),
        vec!["banner".to_string(), "button".to_string()],
    );
    assert!(source_completion_labels(&definitions, Some("file:///c.module.scss"), None).is_empty());
}

#[test]
fn resolves_style_hover_candidates_of_indexed_documents() {
    let uri = "file:///workspace-a/src/App.module.scss";
    let mut state = LspShellState::default();
    let empty = resolve_style_hover_candidates(&state, uri.to_string(), None);
    assert_eq!(empty.candidate_count, 0);
    assert_eq!(empty.language, None);
    assert_eq!(empty.product, "omena-lsp-server.style-hover-candidates");

    state.open_document(
        uri,
        Some("scss".to_string()),
        Some(1),
        Some(".root { --brand: red; }".to_string()),
    );
    let unindexed = resolve_style_hover_candidates(&state, uri.to_string(), None);
    assert_eq!(unindexed.candidate_count, 0);

    let summary = LspStyleDocumentSummary {
        language: "scss",
        selector_names: vec!["root".to_string()],
        custom_property_decl_names: vec!["--brand".to_string()],
        custom_property_ref_names: Vec::new(),
        sass_module_use_sources: Vec::new(),
        sass_module_forward_sources: Vec::new(),
        diagnostic_count: 0,
    };
    assert!(state.set_document_indexes(
        uri,
        DocumentIndexes {
            style_summary: Some(summary),
            style_candidates: sample_candidates(),
            source_selector_candidates: Vec::new(),
            source_syntax: SourceSyntaxSpans::new(),
        },
    ));
    let all = resolve_style_hover_candidates(&state, uri.to_string(), None);
    assert_eq!(all.language, Some("scss"));
    assert_eq!(all.candidate_count, 6);
    let at = resolve_style_hover_candidates(&state, uri.to_string(), Some(pos(0, 2)));
    assert_eq!(at.candidate_count, 1);
    assert_eq!(at.candidates[0].name, "root");
    assert_eq!(at.query_position, Some(pos(0, 2)));
}

#[test]
fn completion_context_comes_from_the_span_under_the_cursor() {
    let uri = "file:///workspace-a/src/App.tsx";
    let text = "styles.bu; cx('al ert');";
    let mut state = LspShellState::default();
    state.open_document(uri, None, None, Some(text.to_string()));
    let spans = SourceSyntaxSpans {
        style_property_accesses: vec![SourceTargetSpan {
            byte_span: ParserByteSpanV0 { start: 7, end: 9 },
            target_style_uri: Some("file:///workspace-a/src/App.module.scss".to_string()),
        }],
        selector_references: Vec::new(),
        class_string_literals: vec![ParserByteSpanV0 { start: 15, end: 21 }],
    };
    state.set_document_indexes(
        uri,
        DocumentIndexes {
            style_summary: None,
            style_candidates: Vec::new(),
            source_selector_candidates: Vec::new(),
            source_syntax: spans,
        },
    );
    let document = state.document(uri).expect("opened document");
    assert_eq!(
        source_completion_context_at_position(document, pos(0, 9)),
        Some((
            Some("file:///workspace-a/src/App.module.scss".to_string()),
            Some("bu".to_string()),
        )),
    );
    // Inside the access, before its end: the target, but no prefix.
    assert_eq!(
        source_completion_context_at_position(document, pos(0, 8)),
        Some((Some("file:///workspace-a/src/App.module.scss".to_string()), None)),
    );
    // In a class-name literal: the last token typed so far.
    assert_eq!(
        source_completion_context_at_position(document, pos(0, 21)),
        Some((None, Some("ert".to_string()))),
    );
    assert_eq!(source_completion_context_at_position(document, pos(0, 3)), None);
    // Past the end of the line names no offset.
    assert_eq!(source_completion_context_at_position(document, pos(0, 40)), None);
}

fn summary(language: &'static str) -> LspStyleDocumentSummary {
    LspStyleDocumentSummary {
        language,
        selector_names: Vec::new(),
        custom_property_decl_names: Vec::new(),
        custom_property_ref_names: Vec::new(),
        sass_module_use_sources: Vec::new(),
        sass_module_forward_sources: Vec::new(),
        diagnostic_count: 0,
    }
}

fn index_style(state: &mut LspShellState, uri: &str, candidates: Vec<LspStyleHoverCandidate>) {
    assert!(state.set_document_indexes(
        uri,
        DocumentIndexes {
            style_summary: Some(summary("scss")),
            style_candidates: candidates,
            source_selector_candidates: Vec::new(),
            source_syntax: SourceSyntaxSpans::new(),
        },
    ));
}

#[test]
fn collects_selector_definitions_of_compatible_style_documents() {
    let mut state = LspShellState::default();
    state.initialize_workspace_folders(
        Some(vec![
            omena_lsp_server::shell::WorkspaceFolderParam {
                uri: Some("file:///a".to_string()),
                name: Some("a".to_string()),
            },
            omena_lsp_server::shell::WorkspaceFolderParam {
                uri: Some("file:///b".to_string()),
                name: Some("b".to_string()),
            },
        ]),
        None,
    );
    for uri in ["file:///a/Two.module.scss", "file:///a/One.module.scss", "file:///b/Three.module.scss", "file:///a/App.tsx"] {
        state.open_document(uri, None, None, Some(String::new()));
    }
    index_style(
        &mut state,
        "file:///a/Two.module.scss",
        vec![
            candidate("selector", "card", range(3, 1, 5)),
            candidate("customPropertyDeclaration", "--x", range(0, 0, 3)),
            candidate("selector", "alert", range(1, 1, 6)),
        ],
    );
    index_style(
        &mut state,
        "file:///a/One.module.scss",
        vec![candidate("selector", "card", range(0, 1, 5))],
    );
    index_style(
        &mut state,
        "file:///b/Three.module.scss",
        vec![candidate("selector", "card", range(0, 1, 5))],
    );
    let flags: Vec<bool> = state
        .documents()
        .iter()
        .map(|document| document.uri.ends_with(".scss"))
        .collect();
    let found = style_selector_definitions_from_open_documents(&state, "", Some("file:///a"), &flags);
    let names: Vec<(&str, &str, usize)> = found
        .iter()
        .map(|(uri, definition)| (uri.as_str(), definition.name.as_str(), definition.range.start.line))
        .collect();
    assert_eq!(
        names,
        vec![
            ("file:///a/One.module.scss", "card", 0),
            ("file:///a/Two.module.scss", "alert", 1),
            ("file:///a/Two.module.scss", "card", 3),
        ],
    );
    let cards = style_selector_definitions_from_open_documents(&state, "card", None, &flags);
    assert_eq!(cards.len(), 3);
    assert_eq!(
        first_style_document_for_workspace(&state, Some("file:///b"), &flags)
            .map(|index| state.documents()[index].uri.as_str()),
        Some("file:///b/Three.module.scss"),
    );
    let all_flags_off = vec![false; state.documents().len()];
    assert_eq!(first_style_document_for_workspace(&state, None, &all_flags_off), None);
    let from_candidates = style_selector_definitions_from_candidates(
        &"file:///c.module.scss".to_string(),
        &[
            candidate("customPropertyDeclaration", "--x", range(0, 0, 3)),
            candidate("selector", "root", range(1, 1, 5)),
        ],
    );
    assert_eq!(from_candidates.len(), 1);
    assert_eq!(from_candidates[0].1.name, "root");
}

#[test]
fn builds_source_reference_candidates_from_spans() {
    let text = "cx('btn primary')";
    let exact = source_reference_candidate(
        text,
        ParserByteSpanV0 { start: 8, end: 15 },
        None,
        false,
        Some("file:///a.module.scss".to_string()),
    );
    assert_eq!(exact.kind, "sourceSelectorReference");
    assert_eq!(exact.name, "primary");
    assert_eq!(exact.range, range(0, 8, 15));
    assert_eq!(exact.source, "omenaQuerySourceSyntaxIndex");
    assert_eq!(exact.target_style_uri.as_deref(), Some("file:///a.module.scss"));
    let prefix = source_reference_candidate(
        text,
        ParserByteSpanV0 { start: 4, end: 7 },
        Some("btn-".to_string()),
        true,
        None,
    );
    assert_eq!(prefix.kind, "sourceSelectorPrefixReference");
    assert_eq!(prefix.name, "btn-");
    assert_eq!(prefix.range, range(0, 4, 7));
}

#[test]
fn picks_the_style_document_a_missing_selector_is_checked_against() {
    let mut state = LspShellState::default();
    state.initialize_workspace_folders(
        Some(vec![
            omena_lsp_server::shell::WorkspaceFolderParam {
                uri: Some("file:///a".to_string()),
                name: Some("a".to_string()),
            },
            omena_lsp_server::shell::WorkspaceFolderParam {
                uri: Some("file:///b".to_string()),
                name: Some("b".to_string()),
            },
        ]),
        None,
    );
    for uri in ["file:///a/One.module.scss", "file:///b/Two.module.scss", "file:///a/App.tsx"] {
        state.open_document(uri, None, None, Some(String::new()));
    }
    let flags: Vec<bool> = state
        .documents()
        .iter()
        .map(|document| document.uri.ends_with(".scss"))
        .collect();
    let target = |uri: Option<&str>, folder: Option<&str>| {
        source_selector_diagnostic_target(
            &state,
            uri,
            uri.is_some_and(|u| u.ends_with(".scss")),
            folder,
            &flags,
        )
        .map(|document| document.uri.clone())
    };
    assert_eq!(
        target(Some("file:///b/Two.module.scss"), None),
        Some("file:///b/Two.module.scss".to_string()),
    );
    assert_eq!(target(Some("file:///b/Two.module.scss"), Some("file:///a")), None);
    assert_eq!(target(Some("file:///a/App.tsx"), None), None);
    assert_eq!(target(Some("file:///a/Missing.module.scss"), None), None);
    assert_eq!(target(None, Some("file:///b")), Some("file:///b/Two.module.scss".to_string()));
    assert_eq!(target(None, Some("file:///a")), Some("file:///a/One.module.scss".to_string()));
    let sources = |folder: Option<&str>| -> Vec<String> {
        source_documents_for_workspace(&state, folder, &flags)
            .into_iter()
            .map(|index| state.documents()[index].uri.clone())
            .collect()
    };
    assert_eq!(sources(Some("file:///a")), vec!["file:///a/App.tsx".to_string()]);
    assert!(sources(Some("file:///b")).is_empty());
    assert_eq!(sources(None), vec!["file:///a/App.tsx".to_string()]);
}

#[test]
fn codelens_keeps_references_when_workspace_owner_uri_encoding_differs() {
    let workspace_uri = "file:///workspace/(group-a)";
    let encoded_workspace_uri = "file:///workspace/%28group-a%29";
    let source_uri = "file:///workspace/%28group-a%29/src/App.tsx";
    let style_uri = "file:///workspace/(group-a)/src/App.module.scss";
    let mut state = LspShellState::default();
    state.initialize_workspace_folders(
        Some(vec![omena_lsp_server::shell::WorkspaceFolderParam {
            uri: Some(workspace_uri.to_string()),
            name: Some("group-a".to_string()),
        }]),
        None,
    );
    state.open_document(style_uri, Some("scss".to_string()), Some(1), Some(".foo { color: red; }".to_string()));
    index_style(&mut state, style_uri, vec![candidate("selector", "foo", range(0, 1, 4))]);
    let style_document = state.document(style_uri).unwrap();
    assert_eq!(style_document.workspace_folder_uri.as_deref(), Some(workspace_uri));

    // The source document, owned under the percent-encoded spelling of the folder.
    let source_document = LspTextDocumentState::new(
        source_uri.to_string(),
        Some(encoded_workspace_uri.to_string()),
        "typescriptreact".to_string(),
        1,
        String::new(),
    );
    let reference = LspStyleHoverCandidate {
        kind: "sourceSelectorReference",
        name: "foo".to_string(),
        range: range(3, 39, 42),
        source: "source",
        target_style_uri: Some(style_uri.to_string()),
        namespace: None,
    };
    let mut entries: Vec<(String, LspLocation)> = Vec::new();
    if workspace_folder_compatible(style_document.workspace_folder_uri.as_deref(), &source_document)
        && source_candidate_matches_target_style(&reference, Some(style_uri))
    {
        entries.push((
            reference.name.clone(),
            LspLocation { uri: source_uri.to_string(), range: reference.range },
        ));
    }
    let references = group_locations_by_name(&entries);
    let lenses = plan_selector_code_lenses(&style_document.style_candidates, &references).unwrap();
    assert_eq!(
        reference_lens_title(references[lenses[0].reference_index].locations.len()),
        "1 reference",
    );
}

#[test]
fn chooses_and_assembles_style_references() {
    assert_eq!(style_reference_source("customPropertyReference", false), StyleReferenceSource::CustomProperty);
    assert_eq!(style_reference_source("customPropertyDeclaration", true), StyleReferenceSource::CustomProperty);
    assert_eq!(style_reference_source("sassVariableReference", true), StyleReferenceSource::SassSymbol);
    assert_eq!(style_reference_source("selector", false), StyleReferenceSource::Selector);
    assert_eq!(style_reference_source("keyframes", false), StyleReferenceSource::Candidate);
    let at = |uri: &str, line: usize| LspLocation { uri: uri.to_string(), range: range(line, 0, 3) };
    let declarations = vec![at("file:///a.scss", 2)];
    let references = vec![at("file:///b.tsx", 5), at("file:///c.tsx", 1)];
    let lines = |locations: Vec<LspLocation>| -> Vec<(String, usize)> {
        locations.into_iter().map(|l| (l.uri, l.range.start.line)).collect()
    };
    assert_eq!(
        lines(assemble_references(declarations.clone(), references.clone(), true)),
        vec![
            ("file:///c.tsx".to_string(), 1),
            ("file:///a.scss".to_string(), 2),
            ("file:///b.tsx".to_string(), 5),
        ],
    );
    assert_eq!(
        lines(assemble_references(declarations, references, false)),
        vec![("file:///c.tsx".to_string(), 1), ("file:///b.tsx".to_string(), 5)],
    );
}
