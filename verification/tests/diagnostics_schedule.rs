use omena_lsp_server::scheduler::{diagnostics_schedule_event, DiagnosticsScheduleEvent};

#[test]
fn maps_lsp_events_to_diagnostics_schedule_events() {
    assert_eq!(
        diagnostics_schedule_event(
            Some("textDocument/didChange"),
            Some("file:///repo/src/App.tsx".to_string()),
            Vec::new(),
        ),
        Some(DiagnosticsScheduleEvent::TextDocument {
            uri: "file:///repo/src/App.tsx".to_string(),
            is_close: false,
        }),
    );
    assert_eq!(
        diagnostics_schedule_event(
            Some("textDocument/didClose"),
            Some("file:///repo/src/App.tsx".to_string()),
            Vec::new(),
        ),
        Some(DiagnosticsScheduleEvent::TextDocument {
            uri: "file:///repo/src/App.tsx".to_string(),
            is_close: true,
        }),
    );
    assert_eq!(
        diagnostics_schedule_event(
            Some("workspace/didChangeWatchedFiles"),
            None,
            vec!["file:///repo/src/App.module.scss".to_string()],
        ),
        Some(DiagnosticsScheduleEvent::WatchedFiles {
            uris: vec!["file:///repo/src/App.module.scss".to_string()],
        }),
    );
}

#[test]
fn maps_other_events_and_ignores_the_rest() {
    assert_eq!(
        diagnostics_schedule_event(Some("workspace/didChangeConfiguration"), None, Vec::new()),
        Some(DiagnosticsScheduleEvent::ConfigurationChanged),
    );
    assert_eq!(
        diagnostics_schedule_event(Some("initialized"), None, Vec::new()),
        Some(DiagnosticsScheduleEvent::Initialized),
    );
    assert_eq!(
        diagnostics_schedule_event(Some("textDocument/didOpen"), None, Vec::new()),
        None,
    );
    assert_eq!(diagnostics_schedule_event(Some("textDocument/hover"), None, Vec::new()), None);
    assert_eq!(diagnostics_schedule_event(None, None, Vec::new()), None);
}
