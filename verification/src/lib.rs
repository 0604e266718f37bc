//! The Rust language-server runtime of Omena, verified: LSP message routing, the
//! document and workspace-folder state, text synchronisation, workspace ownership,
//! and the decisions of the style and source providers and of the diagnostics
//! scheduler, each stated as a contract over mathematical models.

pub mod actions;
pub mod boundary;
pub mod bytes;
pub mod candidate_order;
pub mod completion;
pub mod definitions;
pub mod dispatch;
pub mod documents;
pub mod hover;
pub mod imports;
pub mod indexing;
pub mod labels;
pub mod locations;
pub mod path;
pub mod position;
pub mod providers;
pub mod publications;
pub mod query_reuse;
pub mod ranges;
pub mod registry;
pub mod scheduler;
pub mod settings;
pub mod shell;
pub mod sorting;
pub mod summary;
pub mod text;
pub mod type_facts;
pub mod uri;
pub mod uri_set;

pub use boundary::{
    current_node_lsp_capability_contract, lsp_handler_surfaces, lsp_migration_phases,
    multi_editor_distribution_contract, source_provider_direct_rust_adapter_contract,
    thin_client_endpoint_contract, CodeActionProviderCapabilityV0, CompletionProviderCapabilityV0,
    LspHandlerSurfaceV0, LspMigrationPhaseV0, MultiEditorDistributionV0,
    OmenaLspServerCapabilitiesV0, RenameProviderCapabilityV0, ResolveProviderCapabilityV0,
    SourceProviderDirectRustAdapterV0, ThinClientEndpointV0, WorkspaceCapabilityV0,
    WorkspaceFoldersCapabilityV0, CANCEL_REQUEST_METHOD, NODE_TEXT_DOCUMENT_SYNC_KIND,
};
pub use documents::{LspStyleDocumentSummary, LspStyleHoverCandidate, LspTextDocumentState};
pub use providers::{resolve_style_hover_candidates, LspStyleHoverCandidatesResult};
pub use query_reuse::{rust_query_reuse_contract, RustQueryReuseBoundaryV0};
pub use registry::{
    workspace_runtime_registry_contract, LspWorkspaceFolderState, WorkspaceRuntimeRegistry,
    WorkspaceRuntimeRegistryBoundaryV0,
};
pub use scheduler::{
    diagnostics_schedule_event, rust_diagnostics_scheduler_contract, DiagnosticsScheduleEvent,
    RustDiagnosticsSchedulerBoundaryV0,
};
pub use settings::{LspDiagnosticSettings, LspFeatureSettings, LspWatchedFileChangeState};
pub use shell::LspShellState;
pub use summary::{summarize_omena_lsp_server_boundary, OmenaLspServerBoundarySummaryV0};
