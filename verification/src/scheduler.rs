use vstd::prelude::*;

use crate::text::str_equal;

verus! {

/// How diagnostics notifications are planned.
#[derive(Debug, Clone, PartialEq, Eq)]
pub struct RustDiagnosticsSchedulerBoundaryV0 {
    pub product: &'static str,
    pub owner: &'static str,
    pub scheduling_model: &'static str,
    pub event_policy: Vec<&'static str>,
    pub request_path_policy: Vec<&'static str>,
}

/// What `rust_diagnostics_scheduler_contract` returns.
pub open spec fn is_rust_diagnostics_scheduler_contract(res: RustDiagnosticsSchedulerBoundaryV0) -> bool {
    &&& res.product@ == "omena-lsp-server.diagnostics-scheduler"@
    &&& res.owner@ == "omena-lsp-server/diagnosticsScheduler"@
    &&& res.scheduling_model@ == "deterministicNotificationPlanner"@
    &&& res.event_policy@ == seq![
        "publishOnOpenChangeClose",
        "refreshSourceDiagnosticsForStyleChanges",
        "refreshOpenDocumentsOnConfigurationChange",
        "refreshOpenDocumentsAfterWorkspaceIndexing"
    ]
    &&& res.request_path_policy@ == seq![
        "noNodeDiagnosticsSchedulerOnRustLspPath",
        "diagnosticsNotificationsStayRustOwned",
        "closedDocumentsPublishEmptyDiagnostics"
    ]
}

/// The diagnostics-scheduler boundary this server declares.
pub fn rust_diagnostics_scheduler_contract() -> (res: RustDiagnosticsSchedulerBoundaryV0)
    ensures
        is_rust_diagnostics_scheduler_contract(res),
{
    RustDiagnosticsSchedulerBoundaryV0 {
        product: "omena-lsp-server.diagnostics-scheduler",
        owner: "omena-lsp-server/diagnosticsScheduler",
        scheduling_model: "deterministicNotificationPlanner",
        event_policy: vec![
            "publishOnOpenChangeClose",
            "refreshSourceDiagnosticsForStyleChanges",
            "refreshOpenDocumentsOnConfigurationChange",
            "refreshOpenDocumentsAfterWorkspaceIndexing",
        ],
        request_path_policy: vec![
            "noNodeDiagnosticsSchedulerOnRustLspPath",
            "diagnosticsNotificationsStayRustOwned",
            "closedDocumentsPublishEmptyDiagnostics",
        ],
    }
}

/// What a client message asks of the diagnostics scheduler.
#[derive(Debug, PartialEq, Eq)]
pub enum DiagnosticsScheduleEvent {
    /// A text document was opened, changed or (`is_close`) closed.
    TextDocument { uri: String, is_close: bool },
    /// Files on disk changed.
    WatchedFiles { uris: Vec<String> },
    /// The client's settings changed.
    ConfigurationChanged,
    /// The client finished initialising.
    Initialized,
}

/// Whether `m` is one of the text-document lifecycle notifications.
pub open spec fn is_text_document_lifecycle(m: Seq<char>) -> bool {
    m == "textDocument/didOpen"@ || m == "textDocument/didChange"@ || m
        == "textDocument/didClose"@
}

/// The scheduler event for a message with method `method`, the URI of its text
/// document, and the URIs of the watched files it reports.
pub open spec fn schedule_event_for(
    method: Option<Seq<char>>,
    document_uri: Option<String>,
    watched_file_uris: Vec<String>,
) -> Option<DiagnosticsScheduleEvent> {
    match method {
        Some(m) => if is_text_document_lifecycle(m) {
            match document_uri {
                Some(uri) => Some(
                    DiagnosticsScheduleEvent::TextDocument {
                        uri,
                        is_close: m == "textDocument/didClose"@,
                    },
                ),
                None => None,
            }
        } else if m == "workspace/didChangeWatchedFiles"@ {
            Some(DiagnosticsScheduleEvent::WatchedFiles { uris: watched_file_uris })
        } else if m == "workspace/didChangeConfiguration"@ {
            Some(DiagnosticsScheduleEvent::ConfigurationChanged)
        } else if m == "initialized"@ {
            Some(DiagnosticsScheduleEvent::Initialized)
        } else {
            None
        },
        None => None,
    }
}

/// The view of an optional method name.
pub open spec fn opt_text(method: Option<&str>) -> Option<Seq<char>> {
    match method {
        Some(m) => Some(m@),
        None => None,
    }
}

/// Maps a client message to the diagnostics work it calls for (see `schedule_event_for`).
pub fn diagnostics_schedule_event(
    method: Option<&str>,
    document_uri: Option<String>,
    watched_file_uris: Vec<String>,
) -> (res: Option<DiagnosticsScheduleEvent>)
    ensures
        res == schedule_event_for(opt_text(method), document_uri, watched_file_uris),
{
    match method {
        Some(m) => {
            let is_close = str_equal(m, "textDocument/didClose");
            if str_equal(m, "textDocument/didOpen") || str_equal(m, "textDocument/didChange")
                || is_close {
                match document_uri {
                    Some(uri) => Some(DiagnosticsScheduleEvent::TextDocument { uri, is_close }),
                    None => None,
                }
            } else if str_equal(m, "workspace/didChangeWatchedFiles") {
                Some(DiagnosticsScheduleEvent::WatchedFiles { uris: watched_file_uris })
            } else if str_equal(m, "workspace/didChangeConfiguration") {
                Some(DiagnosticsScheduleEvent::ConfigurationChanged)
            } else if str_equal(m, "initialized") {
                Some(DiagnosticsScheduleEvent::Initialized)
            } else {
                None
            }
        },
        None => None,
    }
}

/// Law: opening, changing and closing a text document each schedule the
/// diagnostics of that document, and only closing marks it closed; without a
/// document URI nothing is scheduled.
pub proof fn law_text_document_events_schedule_diagnostics(uri: String, watched_file_uris: Vec<String>)
    ensures
        schedule_event_for(Some("textDocument/didOpen"@), Some(uri), watched_file_uris) == Some(
            DiagnosticsScheduleEvent::TextDocument { uri, is_close: false },
        ),
        schedule_event_for(Some("textDocument/didChange"@), Some(uri), watched_file_uris) == Some(
            DiagnosticsScheduleEvent::TextDocument { uri, is_close: false },
        ),
        schedule_event_for(Some("textDocument/didClose"@), Some(uri), watched_file_uris) == Some(
            DiagnosticsScheduleEvent::TextDocument { uri, is_close: true },
        ),
        schedule_event_for(Some("textDocument/didOpen"@), None, watched_file_uris) is None,
{
    reveal_strlit("textDocument/didOpen");
    reveal_strlit("textDocument/didChange");
    reveal_strlit("textDocument/didClose");
    assert("textDocument/didOpen"@.len() != "textDocument/didClose"@.len());
    assert("textDocument/didOpen"@ != "textDocument/didClose"@);
    assert("textDocument/didChange"@.len() != "textDocument/didClose"@.len());
    assert("textDocument/didChange"@ != "textDocument/didClose"@);
}

} // verus!
