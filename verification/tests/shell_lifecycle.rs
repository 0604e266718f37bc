use omena_lsp_server::position::{ParserPositionV0, ParserRangeV0};
use omena_lsp_server::settings::LspFeatureToggles;
use omena_lsp_server::shell::{
    ConfigurationSettings, LspShellState, TextDocumentContentChange, WorkspaceFolderParam,
};

fn folder(uri: &str, name: &str) -> WorkspaceFolderParam {
    WorkspaceFolderParam {
        uri: Some(uri.to_string()),
        name: Some(name.to_string()),
    }
}

#[test]
fn tracks_text_document_lifecycle_notifications() {
    let mut state = LspShellState::default();

    state.open_document(
        "file:///workspace-a/src/App.tsx",
        Some("typescriptreact".to_string()),
        Some(1),
        Some("const tone = 'blue';".to_string()),
    );
    assert_eq!(state.document_count(), 1);
    assert_eq!(
        state
            .document("file:///workspace-a/src/App.tsx")
            .map(|document| document.text.as_str()),
        Some("const tone = 'blue';"),
    );
    assert_eq!(
        state
            .document("file:///workspace-a/src/App.tsx")
            .and_then(|document| document.workspace_folder_uri.as_deref()),
        None,
    );

    state.change_document(
        "file:///workspace-a/src/App.tsx",
        Some(2),
        Some(vec![TextDocumentContentChange {
            range: None,
            text: Some("const tone = 'red';".to_string()),
        }]),
    );
    let document = state.document("file:///workspace-a/src/App.tsx");
    assert_eq!(document.map(|document| document.version), Some(2));
    assert_eq!(
        document.map(|document| document.text.as_str()),
        Some("const tone = 'red';"),
    );

    state.change_document(
        "file:///workspace-a/src/App.tsx",
        Some(3),
        Some(vec![TextDocumentContentChange {
            range: Some(ParserRangeV0 {
                start: ParserPositionV0 {
                    line: 0,
                    character: 14,
                },
                end: ParserPositionV0 {
                    line: 0,
                    character: 17,
                },
            }),
            text: Some("green".to_string()),
        }]),
    );
    let document = state.document("file:///workspace-a/src/App.tsx");
    assert_eq!(document.map(|document| document.version), Some(3));
    assert_eq!(
        document.map(|document| document.text.as_str()),
        Some("const tone = 'green';"),
    );

    state.close_document("file:///workspace-a/src/App.tsx", None);
    assert_eq!(state.document_count(), 0);
}

#[test]
fn assigns_document_workspace_folder_by_longest_uri_prefix() {
    let mut state = LspShellState::default();
    state.initialize_workspace_folders(
        Some(vec![
            folder("file:///workspace", "workspace"),
            folder("file:///workspace/packages/app", "app"),
        ]),
        None,
    );

    state.open_document(
        "file:///workspace/packages/app/src/App.tsx",
        Some("typescriptreact".to_string()),
        Some(1),
        Some("export const App = () => null;".to_string()),
    );

    assert_eq!(
        state
            .document("file:///workspace/packages/app/src/App.tsx")
            .and_then(|document| document.workspace_folder_uri.as_deref()),
        Some("file:///workspace/packages/app"),
    );

    state.remove_workspace_folder("file:///workspace/packages/app");
    state.refresh_document_workspace_owners();

    assert_eq!(
        state
            .document("file:///workspace/packages/app/src/App.tsx")
            .and_then(|document| document.workspace_folder_uri.as_deref()),
        Some("file:///workspace"),
    );
}

#[test]
fn configuration_changes_toggle_features_and_severity() {
    let mut state = LspShellState::new();
    assert!(state.features().hover);
    assert_eq!(state.diagnostics().severity, 2);
    state.change_configuration(Some(ConfigurationSettings {
        features: LspFeatureToggles {
            definition: None,
            hover: Some(false),
            completion: None,
            references: None,
            rename: None,
        },
        severity: Some("error".to_string()),
    }));
    assert!(!state.features().hover);
    assert!(state.features().definition);
    assert_eq!(state.diagnostics().severity, 1);
    state.change_configuration(Some(ConfigurationSettings {
        features: LspFeatureToggles {
            definition: None,
            hover: None,
            completion: None,
            references: None,
            rename: None,
        },
        severity: Some("loud".to_string()),
    }));
    assert_eq!(state.diagnostics().severity, 1);
    state.change_configuration(None);
    assert_eq!(state.configuration_change_count(), 3);
}

#[test]
fn initialize_falls_back_to_root_uri_and_skips_folders_without_uri() {
    let mut state = LspShellState::new();
    state.initialize_workspace_folders(None, Some("file:///root".to_string()));
    assert_eq!(state.workspace_folder_count(), 1);
    assert_eq!(
        state.workspace_folder("file:///root").map(|f| f.name.as_str()),
        Some("file:///root")
    );
    state.initialize_workspace_folders(
        Some(vec![
            WorkspaceFolderParam {
                uri: None,
                name: Some("nameless".to_string()),
            },
            WorkspaceFolderParam {
                uri: Some("file:///b".to_string()),
                name: None,
            },
        ]),
        Some("file:///root".to_string()),
    );
    assert_eq!(state.workspace_folder_count(), 1);
    assert_eq!(
        state.workspace_folder("file:///b").map(|f| f.name.as_str()),
        Some("file:///b")
    );
}

#[test]
fn folder_removal_keeps_open_documents_and_evicts_indexed_ones() {
    let mut state = LspShellState::new();
    state.initialize_workspace_folders(Some(vec![folder("file:///w", "w")]), None);
    assert!(state.index_style_document(
        "file:///w/a.module.css",
        "file:///w",
        "css".to_string(),
        ".a {}".to_string()
    ));
    assert!(!state.index_style_document(
        "file:///w/a.module.css",
        "file:///w",
        "css".to_string(),
        ".b {}".to_string()
    ));
    state.open_document("file:///w/App.tsx", None, None, None);
    assert_eq!(
        state.document("file:///w/App.tsx").map(|d| d.language_id.as_str()),
        Some("unknown")
    );
    assert_eq!(state.document("file:///w/App.tsx").map(|d| d.version), Some(0));
    assert_eq!(state.document_count(), 2);
    state.remove_workspace_folder("file:///w");
    assert_eq!(state.workspace_folder_count(), 0);
    assert_eq!(state.document_count(), 1);
    assert!(state.document("file:///w/App.tsx").is_some());
    state.refresh_document_workspace_owners();
    assert_eq!(
        state
            .document("file:///w/App.tsx")
            .and_then(|d| d.workspace_folder_uri.as_deref()),
        None
    );
}

#[test]
fn closing_a_style_document_keeps_the_disk_copy() {
    let mut state = LspShellState::new();
    state.open_document(
        "file:///w/a.module.css",
        Some("css".to_string()),
        Some(4),
        Some(".buffer {}".to_string()),
    );
    assert_eq!(state.open_document_uris_for_diagnostics(), vec!["file:///w/a.module.css".to_string()]);
    state.close_document(
        "file:///w/a.module.css",
        Some(("css".to_string(), ".disk {}".to_string())),
    );
    let document = state.document("file:///w/a.module.css");
    assert_eq!(document.map(|d| d.text.as_str()), Some(".disk {}"));
    assert_eq!(document.map(|d| d.version), Some(0));
    assert!(state.open_document_uris_for_diagnostics().is_empty());
}

#[test]
fn watched_file_changes_drop_or_reload_closed_style_documents() {
    let mut state = LspShellState::new();
    state.reload_document("file:///w/a.module.css", "css".to_string(), ".a {}".to_string());
    assert!(!state.apply_watched_file_change("file:///w/App.tsx", 2, false));
    assert!(state.apply_watched_file_change("file:///w/a.module.css", 2, true));
    assert!(!state.apply_watched_file_change("file:///w/a.module.css", 3, true));
    assert_eq!(state.document_count(), 0);
    assert_eq!(state.watched_file_changes().len(), 3);
    assert_eq!(state.watched_file_changes()[2].change_type, 3);
    state.open_document("file:///w/b.module.css", None, None, None);
    assert!(!state.apply_watched_file_change("file:///w/b.module.css", 3, true));
    assert_eq!(state.document_count(), 1);
}

#[test]
fn change_without_a_known_document_or_text_does_nothing() {
    let mut state = LspShellState::new();
    assert!(!state.change_document("file:///none", Some(2), None));
    state.open_document("file:///a.ts", None, Some(1), Some("ab".to_string()));
    assert!(!state.change_document(
        "file:///a.ts",
        Some(5),
        Some(vec![TextDocumentContentChange {
            range: None,
            text: None
        }])
    ));
    assert_eq!(state.document("file:///a.ts").map(|d| d.version), Some(5));
    assert_eq!(state.document("file:///a.ts").map(|d| d.text.as_str()), Some("ab"));
    state.request_shutdown();
    assert!(state.shutdown_requested());
    assert!(!state.should_exit());
    state.request_exit();
    assert!(state.should_exit());
}
