use omena_lsp_server::boundary::{
    current_node_lsp_capability_contract, lsp_handler_surfaces, lsp_migration_phases,
    multi_editor_distribution_contract, source_provider_direct_rust_adapter_contract,
    thin_client_endpoint_contract, CANCEL_REQUEST_METHOD,
};
use omena_lsp_server::query_reuse::rust_query_reuse_contract;
use omena_lsp_server::registry::workspace_runtime_registry_contract;
use omena_lsp_server::scheduler::rust_diagnostics_scheduler_contract;
use omena_lsp_server::summary::summarize_omena_lsp_server_boundary;

#[test]
fn declares_current_node_lsp_capability_contract() {
    let capabilities = current_node_lsp_capability_contract();

    assert_eq!(capabilities.text_document_sync, 2);
    assert!(capabilities.definition_provider);
    assert!(capabilities.hover_provider);
    assert!(capabilities.references_provider);
    assert_eq!(
        capabilities.completion_provider.trigger_characters,
        vec!["'", "\"", "`", ",", ".", "$", "@", "-"],
    );
    assert_eq!(
        capabilities.code_action_provider.code_action_kinds,
        vec!["quickfix"]
    );
    assert!(capabilities.rename_provider.prepare_provider);
    assert!(capabilities.workspace.workspace_folders.supported);
    assert!(
        capabilities
            .workspace
            .workspace_folders
            .change_notifications
    );
}

#[test]
fn declares_boundary_parts_named_by_the_migration_policy() {
    let phases = lsp_migration_phases();
    assert_eq!(phases.len(), 5);
    assert!(phases.iter().any(|phase| phase.phase == "phase-4-thin-client"));
    assert_eq!(phases[3].exit_gate, "rust/omena-tsgo-client/boundary");

    let endpoint = thin_client_endpoint_contract();
    assert_eq!(endpoint.product, "omena-lsp-server.thin-client-endpoint");
    assert!(!endpoint.node_fallback_allowed);
    assert!(endpoint
        .host_responsibilities
        .contains(&"buildThinClientServerOptions"));
    assert!(endpoint.rust_responsibilities.contains(&"ownTsgoClientLifecycle"));

    let distribution = multi_editor_distribution_contract();
    assert_eq!(
        distribution.product,
        "omena-lsp-server.multi-editor-distribution"
    );
    assert!(distribution.supported_editors.contains(&"neovim"));
    assert!(distribution
        .endpoint_policy
        .contains(&"nodeLspServerIsNotPrimaryEndpoint"));

    let surfaces = lsp_handler_surfaces();
    assert_eq!(surfaces.len(), 17);
    assert!(surfaces
        .iter()
        .any(|surface| surface.method == "textDocument/hover"));
    assert!(surfaces
        .iter()
        .any(|surface| surface.method == CANCEL_REQUEST_METHOD));
    assert_eq!(surfaces[0].migration_state, "providerParity");
    assert_eq!(
        surfaces[15].rust_owner_target,
        "omena-lsp-server/diagnostics"
    );
    assert_eq!(surfaces[16].method, "$/cancelRequest");

    let adapter = source_provider_direct_rust_adapter_contract();
    assert_eq!(
        adapter.product,
        "omena-lsp-server.source-provider-direct-rust-adapter"
    );
    assert!(adapter
        .request_path_policy
        .contains(&"noNodeWorkspaceTypeResolverOnSourceProviderPath"));
    assert!(adapter.provider_surfaces.contains(&"textDocument/definition"));
}

#[test]
fn declares_runtime_component_contracts() {
    assert_eq!(
        rust_query_reuse_contract().product,
        "omena-lsp-server.query-reuse"
    );
    assert_eq!(
        rust_query_reuse_contract().cached_surfaces.len(),
        4
    );
    assert_eq!(
        workspace_runtime_registry_contract().ownership_policy[0],
        "longestWorkspaceRootOwnsDocument"
    );
    assert_eq!(
        rust_diagnostics_scheduler_contract().scheduling_model,
        "deterministicNotificationPlanner"
    );
    assert_eq!(
        rust_diagnostics_scheduler_contract().request_path_policy[2],
        "closedDocumentsPublishEmptyDiagnostics"
    );
}

/// The TypeScript client's own boundary is declared by that client; here it is a
/// stand-in value that the summary carries through unchanged.
#[derive(Debug, Clone, PartialEq, Eq)]
struct ClientBoundaryStandIn {
    ready_surfaces: Vec<&'static str>,
}

#[test]
fn declares_migration_blocking_work_policy() {
    let summary = summarize_omena_lsp_server_boundary(ClientBoundaryStandIn {
        ready_surfaces: vec!["jsonRpcTypeFactProviderImplementation"],
    });

    assert_eq!(summary.product, "omena-lsp-server.boundary");
    assert!(
        summary
            .blocking_work_policy
            .contains(&"noFullWorkspaceProgramOnRequestPath")
    );
    assert!(
        !summary
            .next_decoupling_targets
            .contains(&"tsgoJsonRpcProviderImplementation")
    );
    assert!(
        summary
            .tsgo_client_boundary
            .ready_surfaces
            .contains(&"jsonRpcTypeFactProviderImplementation")
    );
    assert!(
        !summary
            .next_decoupling_targets
            .contains(&"thinVsCodeClientHost")
    );
    assert!(
        !summary
            .next_decoupling_targets
            .contains(&"multiEditorDistribution")
    );
    assert!(
        summary
            .migration_phases
            .iter()
            .any(|phase| phase.phase == "phase-4-thin-client")
    );
    assert_eq!(
        summary.thin_client_endpoint.product,
        "omena-lsp-server.thin-client-endpoint"
    );
    assert!(!summary.thin_client_endpoint.node_fallback_allowed);
    assert!(
        summary
            .thin_client_endpoint
            .host_responsibilities
            .contains(&"buildThinClientServerOptions")
    );
    assert!(
        summary
            .thin_client_endpoint
            .rust_responsibilities
            .contains(&"ownTsgoClientLifecycle")
    );
    assert_eq!(
        summary.multi_editor_distribution.product,
        "omena-lsp-server.multi-editor-distribution"
    );
    assert!(
        summary
            .multi_editor_distribution
            .supported_editors
            .contains(&"neovim")
    );
    assert!(
        summary
            .multi_editor_distribution
            .endpoint_policy
            .contains(&"nodeLspServerIsNotPrimaryEndpoint")
    );
    assert!(
        summary
            .handler_surfaces
            .iter()
            .any(|surface| surface.method == "textDocument/hover"),
    );
    assert!(
        summary
            .handler_surfaces
            .iter()
            .any(|surface| surface.method == CANCEL_REQUEST_METHOD),
    );
    assert_eq!(
        summary.source_provider_adapter.product,
        "omena-lsp-server.source-provider-direct-rust-adapter"
    );
    assert!(
        summary
            .source_provider_adapter
            .request_path_policy
            .contains(&"noNodeWorkspaceTypeResolverOnSourceProviderPath")
    );
    assert!(
        summary
            .source_provider_adapter
            .provider_surfaces
            .contains(&"textDocument/definition")
    );
}
