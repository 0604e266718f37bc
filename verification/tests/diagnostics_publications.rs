use omena_lsp_server::publications::{
    diagnostics_for_open_documents, diagnostics_for_text_document_event,
    diagnostics_for_watched_files, plan_diagnostics_publications, DiagnosticsContent,
};
use omena_lsp_server::scheduler::{diagnostics_schedule_event, DiagnosticsScheduleEvent};
use omena_lsp_server::shell::{LspShellState, WorkspaceFolderParam};

fn folder(uri: &str, name: &str) -> WorkspaceFolderParam {
    WorkspaceFolderParam {
        uri: Some(uri.to_string()),
        name: Some(name.to_string()),
    }
}

fn is_style(uri: &str) -> bool {
    uri.ends_with(".scss") || uri.ends_with(".css")
}

fn style_flags(state: &LspShellState) -> Vec<bool> {
    state
        .documents()
        .iter()
        .map(|document| is_style(document.uri.as_str()))
        .collect()
}

fn two_workspace_state() -> LspShellState {
    let mut state = LspShellState::default();
    state.initialize_workspace_folders(
        Some(vec![
            folder("file:///workspace-a", "workspace-a"),
            folder("file:///workspace-b", "workspace-b"),
        ]),
        None,
    );
    for uri in [
        "file:///workspace-a/src/App.tsx",
        "file:///workspace-a/src/App.module.scss",
        "file:///workspace-a/src/Card.tsx",
        "file:///workspace-b/src/Other.tsx",
    ] {
        state.open_document(uri, None, None, Some(String::new()));
    }
    state
}

fn published(
    outputs: &[omena_lsp_server::publications::DiagnosticsPublication],
) -> Vec<(&str, DiagnosticsContent)> {
    outputs
        .iter()
        .map(|output| (output.uri.as_str(), output.content))
        .collect()
}

#[test]
fn closed_documents_publish_empty_diagnostics() {
    let state = two_workspace_state();
    let flags = style_flags(&state);
    let outputs = diagnostics_for_text_document_event(
        &state,
        "file:///workspace-a/src/App.tsx",
        true,
        false,
        &flags,
    );
    assert_eq!(
        published(&outputs),
        vec![("file:///workspace-a/src/App.tsx", DiagnosticsContent::Cleared)],
    );
}

#[test]
fn style_text_changes_refresh_sources_of_the_same_workspace() {
    let state = two_workspace_state();
    let flags = style_flags(&state);
    let outputs = diagnostics_for_text_document_event(
        &state,
        "file:///workspace-a/src/App.module.scss",
        false,
        true,
        &flags,
    );
    assert_eq!(
        published(&outputs),
        vec![
            ("file:///workspace-a/src/App.module.scss", DiagnosticsContent::Document),
            ("file:///workspace-a/src/App.tsx", DiagnosticsContent::Source),
            ("file:///workspace-a/src/Card.tsx", DiagnosticsContent::Source),
        ],
    );
}

#[test]
fn watched_style_changes_refresh_each_affected_source_once() {
    let state = two_workspace_state();
    let flags = style_flags(&state);
    let uris = vec![
        "file:///workspace-a/src/App.module.scss".to_string(),
        "file:///workspace-a/src/App.tsx".to_string(),
        "file:///workspace-a/src/Unopened.module.scss".to_string(),
    ];
    let uri_flags: Vec<bool> = uris.iter().map(|uri| is_style(uri.as_str())).collect();
    let outputs = diagnostics_for_watched_files(&state, &uris, &uri_flags, &flags);
    assert_eq!(
        published(&outputs),
        vec![
            ("file:///workspace-a/src/App.module.scss", DiagnosticsContent::Document),
            ("file:///workspace-a/src/Unopened.module.scss", DiagnosticsContent::Document),
            ("file:///workspace-a/src/App.tsx", DiagnosticsContent::Source),
            ("file:///workspace-a/src/Card.tsx", DiagnosticsContent::Source),
        ],
    );

    let none = diagnostics_for_watched_files(
        &state,
        &["file:///workspace-b/src/Other.tsx".to_string()],
        &[false],
        &flags,
    );
    assert!(none.is_empty());
}

#[test]
fn open_documents_are_refreshed_in_uri_order() {
    let mut state = two_workspace_state();
    state.close_document("file:///workspace-a/src/Card.tsx", None);
    let outputs = diagnostics_for_open_documents(&state);
    assert_eq!(
        published(&outputs),
        vec![
            ("file:///workspace-a/src/App.module.scss", DiagnosticsContent::Document),
            ("file:///workspace-a/src/App.tsx", DiagnosticsContent::Document),
            ("file:///workspace-b/src/Other.tsx", DiagnosticsContent::Document),
        ],
    );
}

#[test]
fn plans_publications_for_each_scheduler_event() {
    let mut state = two_workspace_state();
    let flags = style_flags(&state);
    assert!(plan_diagnostics_publications(&state, &None, &[], &flags).is_empty());
    let hover = diagnostics_schedule_event(Some("textDocument/hover"), Some("file:///workspace-a/src/App.tsx".to_string()), Vec::new());
    assert!(hover.is_none());
    state.close_document("file:///workspace-a/src/Card.tsx", None);
    assert!(state.document("file:///workspace-a/src/Card.tsx").is_none());
    let flags = style_flags(&state);
    let close = diagnostics_schedule_event(
        Some("textDocument/didClose"),
        Some("file:///workspace-a/src/Card.tsx".to_string()),
        Vec::new(),
    );
    assert!(matches!(close, Some(DiagnosticsScheduleEvent::TextDocument { is_close: true, .. })));
    let planned = plan_diagnostics_publications(&state, &close, &[false], &flags);
    assert_eq!(planned.len(), 1);
    assert_eq!(planned[0].uri, "file:///workspace-a/src/Card.tsx");
    assert_eq!(planned[0].content, DiagnosticsContent::Cleared);
    let refresh = plan_diagnostics_publications(&state, &Some(DiagnosticsScheduleEvent::Initialized), &[], &flags);
    assert!(refresh.iter().all(|p| p.content == DiagnosticsContent::Document));
}
