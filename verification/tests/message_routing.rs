use omena_lsp_server::boundary::{current_node_lsp_capability_contract, CANCEL_REQUEST_METHOD};
use omena_lsp_server::dispatch::{
    route_error, route_lsp_message, LspMessageRoute, LspNotificationKind, LspRequestKind,
    INVALID_REQUEST_ERROR_CODE, METHOD_NOT_FOUND_ERROR_CODE, REQUEST_CANCELLED_ERROR_CODE,
    RUNTIME_LOOP_PROBE_REQUEST, SOURCE_DIAGNOSTICS_REQUEST,
};
use omena_lsp_server::settings::{LspFeatureSettings, LspFeatureToggles};
use omena_lsp_server::shell::{ConfigurationSettings, LspShellState, WorkspaceFolderParam};

#[test]
fn handles_minimal_lsp_lifecycle_requests() {
    let mut state = LspShellState::default();
    let initialize = state.route_message(Some("initialize"), true, false);
    assert_eq!(initialize, LspMessageRoute::Request(LspRequestKind::Initialize));
    state.initialize_workspace_folders(
        Some(vec![WorkspaceFolderParam {
            uri: Some("file:///workspace-a".to_string()),
            name: Some("workspace-a".to_string()),
        }]),
        None,
    );
    assert_eq!(current_node_lsp_capability_contract().text_document_sync, 2);
    assert!(!state.shutdown_requested());
    assert_eq!(state.workspace_folder_count(), 1);
    assert_eq!(
        state
            .workspace_folder("file:///workspace-a")
            .map(|folder| folder.name.as_str()),
        Some("workspace-a"),
    );

    let runtime_probe = state.route_message(Some(RUNTIME_LOOP_PROBE_REQUEST), true, false);
    assert_eq!(
        runtime_probe,
        LspMessageRoute::Request(LspRequestKind::RuntimeLoopProbe)
    );

    let shutdown = state.route_message(Some("shutdown"), true, false);
    assert_eq!(shutdown, LspMessageRoute::Request(LspRequestKind::Shutdown));
    assert!(state.shutdown_requested());

    let exit = state.route_message(Some("exit"), false, false);
    assert_eq!(exit, LspMessageRoute::Notification(LspNotificationKind::Exit));
    assert!(state.should_exit());
}

#[test]
fn reports_unknown_requests_without_panicking() {
    let mut state = LspShellState::default();
    let route = state.route_message(Some("workspace/symbol"), true, false);
    assert_eq!(route, LspMessageRoute::MethodNotFound);
    assert_eq!(route_error(route).map(|(code, _)| code), Some(-32601));
}

#[test]
fn cancels_queued_requests_before_provider_work() {
    let mut state = LspShellState::default();
    assert_eq!(
        state.route_message(Some(CANCEL_REQUEST_METHOD), false, false),
        LspMessageRoute::CancelRequest,
    );
    let response = state.route_message(Some("textDocument/hover"), true, true);
    assert_eq!(response, LspMessageRoute::RespondCancelled);
    assert_eq!(
        route_error(response).map(|(code, _)| code),
        Some(REQUEST_CANCELLED_ERROR_CODE),
    );
}

#[test]
fn honors_feature_configuration_toggles() {
    let mut state = LspShellState::default();
    state.open_document(
        "file:///workspace-a/src/App.module.scss",
        Some("scss".to_string()),
        Some(1),
        Some(".root { color: red; }".to_string()),
    );
    assert_eq!(
        state.route_message(Some("textDocument/hover"), true, false),
        LspMessageRoute::Request(LspRequestKind::Hover),
    );

    state.change_configuration(Some(ConfigurationSettings {
        features: LspFeatureToggles {
            definition: None,
            hover: Some(false),
            completion: None,
            references: None,
            rename: None,
        },
        severity: Some("error".to_string()),
    }));

    assert_eq!(
        state.route_message(Some("textDocument/hover"), true, false),
        LspMessageRoute::NullResult,
    );
    assert!(!state.features().hover);
    assert_eq!(state.diagnostics().severity, 1);
}

fn all_features() -> LspFeatureSettings {
    LspFeatureSettings::default()
}

#[test]
fn routes_requests_and_notifications_by_method_and_id() {
    let features = all_features();
    assert_eq!(
        route_lsp_message(Some("textDocument/didOpen"), false, false, &features),
        LspMessageRoute::Notification(LspNotificationKind::DidOpen),
    );
    assert_eq!(
        route_lsp_message(Some("initialized"), false, false, &features),
        LspMessageRoute::Notification(LspNotificationKind::Initialized),
    );
    assert_eq!(
        route_lsp_message(Some(SOURCE_DIAGNOSTICS_REQUEST), true, false, &features),
        LspMessageRoute::Request(LspRequestKind::SourceDiagnostics),
    );
    // A notification method sent with an id is no known request.
    assert_eq!(
        route_lsp_message(Some("initialized"), true, false, &features),
        LspMessageRoute::MethodNotFound,
    );
    // A request method sent without an id is ignored.
    assert_eq!(
        route_lsp_message(Some("textDocument/hover"), false, false, &features),
        LspMessageRoute::Ignore,
    );
    assert_eq!(
        route_lsp_message(None, true, false, &features),
        LspMessageRoute::InvalidRequest,
    );
    assert_eq!(
        route_error(LspMessageRoute::InvalidRequest),
        Some((INVALID_REQUEST_ERROR_CODE, "Invalid Request")),
    );
    assert_eq!(
        route_error(LspMessageRoute::MethodNotFound),
        Some((METHOD_NOT_FOUND_ERROR_CODE, "Method not found")),
    );
    assert_eq!(route_lsp_message(None, false, false, &features), LspMessageRoute::Ignore);
    assert_eq!(route_error(LspMessageRoute::Ignore), None);
    // A cancel notification is never itself answered as cancelled.
    assert_eq!(
        route_lsp_message(Some(CANCEL_REQUEST_METHOD), false, true, &features),
        LspMessageRoute::CancelRequest,
    );
}

#[test]
fn switched_off_providers_answer_with_null_results() {
    let features = LspFeatureSettings {
        definition: false,
        hover: true,
        completion: false,
        references: false,
        rename: false,
    };
    assert_eq!(
        route_lsp_message(Some("textDocument/definition"), true, false, &features),
        LspMessageRoute::NullResult,
    );
    assert_eq!(
        route_lsp_message(Some("textDocument/codeLens"), true, false, &features),
        LspMessageRoute::NullResult,
    );
    assert_eq!(
        route_lsp_message(Some("textDocument/prepareRename"), true, false, &features),
        LspMessageRoute::NullResult,
    );
    assert_eq!(
        route_lsp_message(Some("textDocument/codeAction"), true, false, &features),
        LspMessageRoute::Request(LspRequestKind::CodeAction),
    );
    assert_eq!(
        route_lsp_message(Some("textDocument/hover"), true, false, &features),
        LspMessageRoute::Request(LspRequestKind::Hover),
    );
}
