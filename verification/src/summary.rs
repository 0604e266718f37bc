use vstd::prelude::*;

use crate::boundary::{
    current_node_lsp_capability_contract, is_current_node_lsp_capability_contract,
    is_lsp_handler_surfaces, is_lsp_migration_phases, is_multi_editor_distribution_contract,
    is_source_provider_direct_rust_adapter_contract, is_thin_client_endpoint_contract,
    lsp_handler_surfaces, lsp_migration_phases, multi_editor_distribution_contract,
    source_provider_direct_rust_adapter_contract, thin_client_endpoint_contract,
    LspHandlerSurfaceV0, LspMigrationPhaseV0, MultiEditorDistributionV0,
    OmenaLspServerCapabilitiesV0, SourceProviderDirectRustAdapterV0, ThinClientEndpointV0,
};
use crate::query_reuse::{is_rust_query_reuse_contract, rust_query_reuse_contract, RustQueryReuseBoundaryV0};
use crate::registry::{
    is_workspace_runtime_registry_contract, workspace_runtime_registry_contract,
    WorkspaceRuntimeRegistryBoundaryV0,
};
use crate::scheduler::{
    is_rust_diagnostics_scheduler_contract, rust_diagnostics_scheduler_contract,
    RustDiagnosticsSchedulerBoundaryV0,
};

verus! {

/// The boundary of the server as a whole: its identity, capabilities, handlers,
/// migration plan and policies, and the boundaries of its components, among them
/// that of the TypeScript client it runs (`T`), which that client declares.
#[derive(Debug, Clone, PartialEq, Eq)]
pub struct OmenaLspServerBoundarySummaryV0<T> {
    pub schema_version: &'static str,
    pub product: &'static str,
    pub server_name: &'static str,
    pub migration_status: &'static str,
    pub transport_contract: &'static str,
    pub capabilities: OmenaLspServerCapabilitiesV0,
    pub handler_surfaces: Vec<LspHandlerSurfaceV0>,
    pub migration_phases: Vec<LspMigrationPhaseV0>,
    pub blocking_work_policy: Vec<&'static str>,
    pub tsgo_client_boundary: T,
    pub source_provider_adapter: SourceProviderDirectRustAdapterV0,
    pub workspace_runtime_registry: WorkspaceRuntimeRegistryBoundaryV0,
    pub diagnostics_scheduler: RustDiagnosticsSchedulerBoundaryV0,
    pub query_reuse: RustQueryReuseBoundaryV0,
    pub thin_client_endpoint: ThinClientEndpointV0,
    pub multi_editor_distribution: MultiEditorDistributionV0,
    pub node_parity_contracts: Vec<&'static str>,
    pub next_decoupling_targets: Vec<&'static str>,
}

/// The server's boundary summary, carrying the TypeScript client's boundary as
/// given.
pub fn summarize_omena_lsp_server_boundary<T>(tsgo_client_boundary: T) -> (res:
    OmenaLspServerBoundarySummaryV0<T>)
    ensures
        res.schema_version@ == "0"@,
        res.product@ == "omena-lsp-server.boundary"@,
        res.server_name@ == "css-module-explainer"@,
        res.migration_status@ == "thinClient"@,
        res.transport_contract@ == "LSP stdio or IPC JSON-RPC"@,
        is_current_node_lsp_capability_contract(res.capabilities),
        is_lsp_handler_surfaces(res.handler_surfaces),
        is_lsp_migration_phases(res.migration_phases),
        res.blocking_work_policy@ == seq![
            "noFullWorkspaceProgramOnRequestPath",
            "cooperativeCancellationBeforeProviderWork",
            "backgroundIndexAndTypeFactWarmup",
            "staleOrUnresolvableFastReturn",
        ],
        res.tsgo_client_boundary == tsgo_client_boundary,
        is_source_provider_direct_rust_adapter_contract(res.source_provider_adapter),
        is_workspace_runtime_registry_contract(res.workspace_runtime_registry),
        is_rust_diagnostics_scheduler_contract(res.diagnostics_scheduler),
        is_rust_query_reuse_contract(res.query_reuse),
        is_thin_client_endpoint_contract(res.thin_client_endpoint),
        is_multi_editor_distribution_contract(res.multi_editor_distribution),
        res.node_parity_contracts@ == seq![
            "initializeCapabilities",
            "textDocumentSync",
            "workspaceFolders",
            "dynamicFileWatchers",
            "diagnosticsPush",
            "codeLensRefresh",
        ],
        res.next_decoupling_targets@.len() == 0,
{
    OmenaLspServerBoundarySummaryV0 {
        schema_version: "0",
        product: "omena-lsp-server.boundary",
        server_name: "css-module-explainer",
        migration_status: "thinClient",
        transport_contract: "LSP stdio or IPC JSON-RPC",
        capabilities: current_node_lsp_capability_contract(),
        handler_surfaces: lsp_handler_surfaces(),
        migration_phases: lsp_migration_phases(),
        blocking_work_policy: vec![
            "noFullWorkspaceProgramOnRequestPath",
            "cooperativeCancellationBeforeProviderWork",
            "backgroundIndexAndTypeFactWarmup",
            "staleOrUnresolvableFastReturn",
        ],
        tsgo_client_boundary,
        source_provider_adapter: source_provider_direct_rust_adapter_contract(),
        workspace_runtime_registry: workspace_runtime_registry_contract(),
        diagnostics_scheduler: rust_diagnostics_scheduler_contract(),
        query_reuse: rust_query_reuse_contract(),
        thin_client_endpoint: thin_client_endpoint_contract(),
        multi_editor_distribution: multi_editor_distribution_contract(),
        node_parity_contracts: vec![
            "initializeCapabilities",
            "textDocumentSync",
            "workspaceFolders",
            "dynamicFileWatchers",
            "diagnosticsPush",
            "codeLensRefresh",
        ],
        next_decoupling_targets: Vec::new(),
    }
}

} // verus!
