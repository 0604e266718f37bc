use omena_lsp_server::actions::{
    plan_code_actions, quick_fix_source, CreateFixPayload, DiagnosticFixes, QuickFixKind,
};
use omena_lsp_server::candidate_order::{candidate_less, same_candidate, sort_and_dedup_candidates};
use omena_lsp_server::definitions::{
    definitions_in_document, retain_identified_definitions, sort_and_dedup_selector_definitions,
    sort_and_dedup_symbol_declarations, DefinitionIdentity,
};
use omena_lsp_server::documents::LspStyleHoverCandidate;
use omena_lsp_server::imports::{sort_and_dedup_imports, StyleImportBinding};
use omena_lsp_server::indexing::{
    path_to_file_uri, should_skip_workspace_index_dir, WorkspaceStyleIndexBudget,
    WORKSPACE_STYLE_INDEX_DIR_LIMIT, WORKSPACE_STYLE_INDEX_LIMIT,
};
use omena_lsp_server::labels::reference_lens_title;
use omena_lsp_server::locations::{
    assemble_source_references, group_edits_by_document, selector_locations,
    source_reference_lookups, LspTextEdit,
    group_locations_by_name, plan_selector_code_lenses, sort_and_dedup_locations, LspLocation,
    SelectorReferenceLocations,
};
use omena_lsp_server::position::{ParserPositionV0, ParserRangeV0};
use omena_lsp_server::sorting::{sort_by_range, SortKey};
use omena_lsp_server::type_facts::project_type_fact_names;
use omena_lsp_server::uri_set::sorted_unique_strings;

fn pos(line: usize, character: usize) -> ParserPositionV0 {
    ParserPositionV0 { line, character }
}

fn range(line: usize, start: usize, end: usize) -> ParserRangeV0 {
    ParserRangeV0 {
        start: pos(line, start),
        end: pos(line, end),
    }
}

fn location(uri: &str, at: ParserRangeV0) -> LspLocation {
    LspLocation {
        uri: uri.to_string(),
        range: at,
    }
}

fn payload(uri: &str, new_text: &str, name: &str) -> CreateFixPayload {
    CreateFixPayload {
        uri: uri.to_string(),
        new_text: new_text.to_string(),
        name: name.to_string(),
    }
}

#[test]
fn plans_quick_fixes_for_missing_custom_properties_and_selectors() {
    let diagnostics = vec![
        DiagnosticFixes {
            create_custom_property: None,
            create_selector: Some(payload(
                "file:///workspace-a/src/App.module.scss",
                "\n\n.missing {\n}\n",
                "missing",
            )),
        },
        DiagnosticFixes {
            create_custom_property: Some(payload(
                "file:///workspace-a/src/App.module.scss",
                "\n\n:root {\n  --missing: ;\n}\n",
                "--missing",
            )),
            create_selector: None,
        },
    ];
    let plans = plan_code_actions(&diagnostics).expect("two fixes");
    assert_eq!(plans.len(), 2);
    assert_eq!(plans[0].kind, QuickFixKind::CreateCustomProperty);
    assert_eq!(plans[0].title, "Add '--missing' to App.module.scss");
    assert_eq!(plans[0].diagnostic_index, 1);
    assert_eq!(plans[0].new_text, "\n\n:root {\n  --missing: ;\n}\n");
    assert_eq!(plans[1].kind, QuickFixKind::CreateSelector);
    assert_eq!(plans[1].title, "Add '.missing' to App.module.scss");
    assert_eq!(plans[1].diagnostic_index, 0);
    assert_eq!(plans[1].uri, "file:///workspace-a/src/App.module.scss");
    assert_eq!(quick_fix_source(plans[0].kind), "openedStyleDocumentIndex");
    assert_eq!(quick_fix_source(plans[1].kind), "omenaQuerySourceSyntaxIndex");

    let none = vec![DiagnosticFixes {
        create_custom_property: None,
        create_selector: None,
    }];
    assert!(plan_code_actions(&none).is_none());
    assert!(plan_code_actions(&[]).is_none());
}

#[test]
fn sorts_locations_by_document_then_start_and_drops_repeats() {
    let locations = vec![
        location("file:///b.tsx", range(0, 4, 7)),
        location("file:///a.tsx", range(3, 0, 2)),
        location("file:///a.tsx", range(1, 5, 9)),
        location("file:///b.tsx", range(0, 4, 7)),
        location("file:///a.tsx", range(1, 5, 9)),
        location("file:///a.tsx", range(1, 5, 6)),
    ];
    assert_eq!(
        sort_and_dedup_locations(locations),
        vec![
            location("file:///a.tsx", range(1, 5, 9)),
            location("file:///a.tsx", range(1, 5, 6)),
            location("file:///a.tsx", range(3, 0, 2)),
            location("file:///b.tsx", range(0, 4, 7)),
        ],
    );
}

#[test]
fn groups_reference_locations_by_selector_name() {
    let entries = vec![
        ("card".to_string(), location("file:///b.tsx", range(2, 0, 4))),
        ("alert".to_string(), location("file:///a.tsx", range(0, 1, 6))),
        ("card".to_string(), location("file:///a.tsx", range(5, 0, 4))),
        ("card".to_string(), location("file:///b.tsx", range(2, 0, 4))),
    ];
    let groups = group_locations_by_name(&entries);
    assert_eq!(groups.len(), 2);
    assert_eq!(groups[0].selector_name, "alert");
    assert_eq!(groups[0].locations, vec![location("file:///a.tsx", range(0, 1, 6))]);
    assert_eq!(groups[1].selector_name, "card");
    assert_eq!(
        groups[1].locations,
        vec![
            location("file:///a.tsx", range(5, 0, 4)),
            location("file:///b.tsx", range(2, 0, 4)),
        ],
    );
}

fn selector(name: &str, at: ParserRangeV0) -> LspStyleHoverCandidate {
    LspStyleHoverCandidate {
        kind: "selector",
        name: name.to_string(),
        range: at,
        source: "styleDocument",
        target_style_uri: None,
        namespace: None,
    }
}

#[test]
fn plans_one_code_lens_per_referenced_selector_name() {
    let candidates = vec![
        selector("foo", range(4, 1, 4)),
        selector("bar", range(1, 1, 4)),
        selector("foo", range(0, 1, 4)),
        selector("unused", range(2, 1, 7)),
    ];
    let references = vec![
        SelectorReferenceLocations {
            selector_name: "foo".to_string(),
            locations: vec![location("file:///App.tsx", range(3, 39, 42))],
        },
        SelectorReferenceLocations {
            selector_name: "bar".to_string(),
            locations: vec![
                location("file:///App.tsx", range(4, 1, 4)),
                location("file:///Other.tsx", range(0, 1, 4)),
            ],
        },
        SelectorReferenceLocations {
            selector_name: "unused".to_string(),
            locations: Vec::new(),
        },
    ];
    let lenses = plan_selector_code_lenses(&candidates, &references).expect("two lenses");
    assert_eq!(lenses.len(), 2);
    assert_eq!(lenses[0].position, pos(1, 1));
    assert_eq!(lenses[0].reference_index, 1);
    assert_eq!(lenses[1].position, pos(4, 1));
    assert_eq!(lenses[1].reference_index, 0);
    assert_eq!(
        reference_lens_title(references[lenses[1].reference_index].locations.len()),
        "1 reference",
    );
    assert_eq!(
        reference_lens_title(references[lenses[0].reference_index].locations.len()),
        "2 references",
    );
    assert!(plan_selector_code_lenses(&candidates, &[]).is_none());
}

#[test]
fn sorts_ranges_stably_by_start_or_by_start_and_end() {
    let ranges = vec![range(1, 0, 9), range(0, 5, 6), range(1, 0, 3), range(0, 1, 2)];
    assert_eq!(
        sort_by_range(ranges.clone(), SortKey::Start),
        vec![range(0, 1, 2), range(0, 5, 6), range(1, 0, 9), range(1, 0, 3)],
    );
    assert_eq!(
        sort_by_range(ranges, SortKey::StartEnd),
        vec![range(0, 1, 2), range(0, 5, 6), range(1, 0, 3), range(1, 0, 9)],
    );
}

#[test]
fn workspace_index_budget_stops_when_any_limit_is_spent() {
    let defaults = WorkspaceStyleIndexBudget::with_defaults();
    assert_eq!(defaults.remaining_style_files, WORKSPACE_STYLE_INDEX_LIMIT);
    assert_eq!(defaults.remaining_dirs, WORKSPACE_STYLE_INDEX_DIR_LIMIT);
    assert_eq!(WORKSPACE_STYLE_INDEX_LIMIT, 512);
    assert_eq!(WORKSPACE_STYLE_INDEX_DIR_LIMIT, 2048);
    assert_eq!(defaults.time_budget_ms, 50);

    let mut budget = WorkspaceStyleIndexBudget::with_limits(1, 1, 0);
    assert!(budget.should_stop());
    assert!(budget.exhausted);

    let mut budget = WorkspaceStyleIndexBudget::with_limits(2, 1, 1_000);
    assert!(!budget.should_stop_after(10));
    assert!(!budget.exhausted);
    budget.consume_style_file();
    assert_eq!(budget.remaining_style_files, 1);
    budget.consume_dir();
    assert_eq!(budget.remaining_dirs, 0);
    budget.consume_dir();
    assert_eq!(budget.remaining_dirs, 0);
    assert!(budget.should_stop_after(10));
    assert!(budget.exhausted);

    let mut budget = WorkspaceStyleIndexBudget::with_limits(5, 5, 50);
    assert!(budget.should_stop_after(50));
    let mut budget = WorkspaceStyleIndexBudget::with_limits(0, 5, 50);
    assert!(budget.should_stop());
}

#[test]
fn skips_tool_and_build_directories_and_forms_file_uris() {
    for name in [
        ".cache",
        ".git",
        ".next",
        ".turbo",
        "build",
        "coverage",
        "dist",
        "node_modules",
        "out",
        "target",
    ] {
        assert!(should_skip_workspace_index_dir(Some(name)), "{name}");
    }
    assert!(!should_skip_workspace_index_dir(Some("src")));
    assert!(!should_skip_workspace_index_dir(Some("builds")));
    assert!(!should_skip_workspace_index_dir(None));
    assert_eq!(
        path_to_file_uri("/workspace/src/App.module.scss"),
        "file:///workspace/src/App.module.scss",
    );
}

#[test]
fn projects_union_type_facts_onto_selector_names() {
    let values = vec![
        "primary".to_string(),
        "danger zone".to_string(),
        "accent".to_string(),
        "primary".to_string(),
        "".to_string(),
    ];
    assert_eq!(
        project_type_fact_names("union", &values, "btn-", ""),
        vec![
            "btn-".to_string(),
            "btn-accent".to_string(),
            "btn-primary".to_string(),
        ],
    );
    assert_eq!(
        project_type_fact_names("union", &["".to_string()], "", ""),
        Vec::<String>::new(),
    );
    assert!(project_type_fact_names("string", &values, "", "").is_empty());
}

fn definition(uri: &str, kind: &'static str, name: &str, at: ParserRangeV0) -> (String, LspStyleHoverCandidate) {
    (
        uri.to_string(),
        LspStyleHoverCandidate {
            kind,
            name: name.to_string(),
            range: at,
            source: "style",
            target_style_uri: None,
            namespace: None,
        },
    )
}

#[test]
fn sorts_strings_once_each_in_byte_order() {
    let items = vec![
        "file:///b.scss".to_string(),
        "file:///a.scss".to_string(),
        "file:///b.scss".to_string(),
        "file:///B.scss".to_string(),
    ];
    assert_eq!(
        sorted_unique_strings(items),
        vec!["file:///B.scss".to_string(), "file:///a.scss".to_string(), "file:///b.scss".to_string()],
    );
    assert!(sorted_unique_strings(Vec::new()).is_empty());
}

#[test]
fn orders_selector_definitions_by_uri_start_and_name_once_each() {
    let definitions = vec![
        definition("file:///b.css", "selector", "root", range(0, 0, 5)),
        definition("file:///a.css", "selector", "zeta", range(1, 0, 5)),
        definition("file:///a.css", "selector", "alpha", range(1, 0, 6)),
        definition("file:///a.css", "selector", "zeta", range(1, 0, 5)),
        definition("file:///a.css", "selector", "alpha", range(0, 2, 3)),
    ];
    let names: Vec<(String, String)> = sort_and_dedup_selector_definitions(definitions)
        .into_iter()
        .map(|(uri, d)| (uri, d.name))
        .collect();
    assert_eq!(
        names,
        vec![
            ("file:///a.css".to_string(), "alpha".to_string()),
            ("file:///a.css".to_string(), "alpha".to_string()),
            ("file:///a.css".to_string(), "zeta".to_string()),
            ("file:///b.css".to_string(), "root".to_string()),
        ],
    );
}

#[test]
fn orders_symbol_declarations_and_drops_repeats_of_one_kind() {
    let definitions = vec![
        definition("file:///b.scss", "sassVariableDeclaration", "gap", range(3, 0, 4)),
        definition("file:///a.scss", "sassVariableDeclaration", "gap", range(3, 0, 4)),
        definition("file:///b.scss", "sassVariableDeclaration", "gap", range(3, 0, 4)),
        definition("file:///b.scss", "sassMixinDeclaration", "gap", range(3, 0, 4)),
    ];
    let kept: Vec<(String, &str)> = sort_and_dedup_symbol_declarations(definitions)
        .into_iter()
        .map(|(uri, d)| (uri, d.kind))
        .collect();
    assert_eq!(
        kept,
        vec![
            ("file:///a.scss".to_string(), "sassVariableDeclaration"),
            ("file:///b.scss".to_string(), "sassVariableDeclaration"),
            ("file:///b.scss".to_string(), "sassMixinDeclaration"),
        ],
    );
}

#[test]
fn keeps_the_definitions_identified_by_document_name_and_range() {
    let definitions = vec![
        definition("file:///a.css", "selector", "card", range(0, 1, 5)),
        definition("file:///a.css", "selector", "card", range(4, 1, 5)),
        definition("file:///b.css", "selector", "card", range(0, 1, 5)),
        definition("file:///b.css", "selector", "alert", range(2, 1, 6)),
    ];
    assert!(definitions_in_document(&definitions, "file:///b.css"));
    assert!(!definitions_in_document(&definitions, "file:///c.css"));
    let identities = vec![
        DefinitionIdentity { uri: "file:///b.css".to_string(), name: "alert".to_string(), range: range(2, 1, 6) },
        DefinitionIdentity { uri: "file:///a.css".to_string(), name: "card".to_string(), range: range(4, 1, 5) },
        DefinitionIdentity { uri: "file:///a.css".to_string(), name: "cards".to_string(), range: range(0, 1, 5) },
    ];
    let kept: Vec<(String, usize)> = retain_identified_definitions(definitions, &identities)
        .into_iter()
        .map(|(uri, d)| (uri, d.range.start.line))
        .collect();
    assert_eq!(kept, vec![("file:///a.css".to_string(), 4), ("file:///b.css".to_string(), 2)]);
}

fn source_candidate(kind: &'static str, name: &str, at: ParserRangeV0, target: Option<&str>) -> LspStyleHoverCandidate {
    LspStyleHoverCandidate {
        kind,
        name: name.to_string(),
        range: at,
        source: "source",
        target_style_uri: target.map(str::to_string),
        namespace: None,
    }
}

#[test]
fn sorts_candidates_field_by_field_once_each() {
    let candidates = vec![
        source_candidate("sourceSelectorReference", "card", range(2, 0, 4), Some("file:///b.css")),
        source_candidate("sourceSelectorReference", "card", range(2, 0, 4), None),
        source_candidate("sourceSelectorPrefixReference", "btn-", range(0, 0, 4), None),
        source_candidate("sourceSelectorReference", "card", range(2, 0, 4), Some("file:///b.css")),
        source_candidate("sourceSelectorReference", "alert", range(5, 0, 5), None),
        source_candidate("sourceSelectorReference", "card", range(1, 0, 4), None),
    ];
    let sorted = sort_and_dedup_candidates(candidates);
    let keys: Vec<(&str, &str, usize, Option<&str>)> = sorted
        .iter()
        .map(|c| (c.kind, c.name.as_str(), c.range.start.line, c.target_style_uri.as_deref()))
        .collect();
    assert_eq!(
        keys,
        vec![
            ("sourceSelectorPrefixReference", "btn-", 0, None),
            ("sourceSelectorReference", "alert", 5, None),
            ("sourceSelectorReference", "card", 1, None),
            ("sourceSelectorReference", "card", 2, None),
            ("sourceSelectorReference", "card", 2, Some("file:///b.css")),
        ],
    );
    assert!(candidate_less(&sorted[0], &sorted[1]));
    assert!(!candidate_less(&sorted[1], &sorted[1]));
    assert!(same_candidate(&sorted[2], &sorted[2].clone()));
    assert!(!same_candidate(&sorted[3], &sorted[4]));
}

fn import(binding: &str, style_uri: &str) -> StyleImportBinding {
    StyleImportBinding { binding: binding.to_string(), style_uri: style_uri.to_string() }
}

#[test]
fn orders_style_imports_by_binding_and_drops_repeats() {
    let imports = vec![
        import("styles", "file:///b.module.css"),
        import("buttons", "file:///a.module.css"),
        import("styles", "file:///c.module.css"),
        import("styles", "file:///b.module.css"),
        import("styles", "file:///c.module.css"),
    ];
    assert_eq!(
        sort_and_dedup_imports(imports),
        vec![
            import("buttons", "file:///a.module.css"),
            import("styles", "file:///b.module.css"),
            import("styles", "file:///c.module.css"),
            import("styles", "file:///b.module.css"),
            import("styles", "file:///c.module.css"),
        ],
    );
    assert_eq!(
        sort_and_dedup_imports(vec![import("s", "x"), import("s", "x"), import("a", "y")]),
        vec![import("a", "y"), import("s", "x")],
    );
}

fn edit(uri: &str, at: ParserRangeV0, new_text: &str) -> LspTextEdit {
    LspTextEdit { uri: uri.to_string(), range: at, new_text: new_text.to_string() }
}

#[test]
fn groups_rename_edits_by_document_in_order() {
    let edits = vec![
        edit("file:///src/App.tsx", range(4, 10, 14), "card"),
        edit("file:///src/App.module.scss", range(0, 1, 5), "card"),
        edit("file:///src/App.tsx", range(1, 3, 7), "card"),
        edit("file:///src/Other.tsx", range(0, 0, 4), "card"),
    ];
    let groups = group_edits_by_document(edits);
    let shape: Vec<(&str, Vec<usize>)> = groups
        .iter()
        .map(|group| (group.uri.as_str(), group.edits.iter().map(|e| e.range.start.line).collect()))
        .collect();
    assert_eq!(
        shape,
        vec![
            ("file:///src/App.module.scss", vec![0]),
            ("file:///src/App.tsx", vec![1, 4]),
            ("file:///src/Other.tsx", vec![0]),
        ],
    );
    assert!(group_edits_by_document(Vec::new()).is_empty());
}

#[test]
fn looks_up_the_locations_of_one_selector() {
    let references = vec![
        SelectorReferenceLocations {
            selector_name: "alert".to_string(),
            locations: vec![location("file:///a.tsx", range(0, 1, 2))],
        },
        SelectorReferenceLocations {
            selector_name: "card".to_string(),
            locations: vec![location("file:///b.tsx", range(3, 1, 2)), location("file:///c.tsx", range(4, 1, 2))],
        },
    ];
    assert_eq!(selector_locations(references.clone(), "card").len(), 2);
    assert_eq!(selector_locations(references.clone(), "alert")[0].uri, "file:///a.tsx");
    assert!(selector_locations(references, "missing").is_empty());
}

#[test]
fn plans_reference_lookups_for_source_candidates() {
    let candidates = vec![
        source_candidate("sourceSelectorPrefixReference", "btn-", range(0, 0, 4), Some("file:///b.css")),
        source_candidate("sourceSelectorReference", "card", range(1, 0, 4), None),
    ];
    let prefix_names = vec![vec!["btn-primary".to_string(), "btn-small".to_string()], Vec::new()];
    let lookups: Vec<(String, Option<String>)> = source_reference_lookups(&candidates, &prefix_names)
        .into_iter()
        .map(|l| (l.selector_name, l.target_style_uri))
        .collect();
    assert_eq!(
        lookups,
        vec![
            ("btn-primary".to_string(), Some("file:///b.css".to_string())),
            ("btn-small".to_string(), Some("file:///b.css".to_string())),
            ("card".to_string(), None),
        ],
    );
}

#[test]
fn assembles_source_references_or_none() {
    let declarations = vec![location("file:///b.css", range(0, 1, 5))];
    let references = vec![
        location("file:///a.tsx", range(3, 0, 4)),
        location("file:///a.tsx", range(1, 0, 4)),
        location("file:///a.tsx", range(3, 0, 4)),
    ];
    let all = assemble_source_references(declarations.clone(), references.clone(), true).unwrap();
    let shape: Vec<(&str, usize)> = all.iter().map(|l| (l.uri.as_str(), l.range.start.line)).collect();
    assert_eq!(shape, vec![("file:///a.tsx", 1), ("file:///a.tsx", 3), ("file:///b.css", 0)]);
    assert_eq!(assemble_source_references(declarations.clone(), references, false).unwrap().len(), 2);
    assert_eq!(assemble_source_references(declarations, Vec::new(), false), None);
}
