use vstd::prelude::*;

verus! {

/// The text document sync kind this server advertises (incremental).
pub const NODE_TEXT_DOCUMENT_SYNC_KIND: u8 = 2;

/// JSON-RPC method a client sends to cancel an in-flight request.
pub const CANCEL_REQUEST_METHOD: &'static str = "$/cancelRequest";

/// Language-server capabilities advertised in the `initialize` response.
#[derive(Debug, Clone, PartialEq, Eq)]
pub struct OmenaLspServerCapabilitiesV0 {
    pub text_document_sync: u8,
    pub definition_provider: bool,
    pub hover_provider: bool,
    pub completion_provider: CompletionProviderCapabilityV0,
    pub code_action_provider: CodeActionProviderCapabilityV0,
    pub references_provider: bool,
    pub code_lens_provider: ResolveProviderCapabilityV0,
    pub rename_provider: RenameProviderCapabilityV0,
    pub workspace: WorkspaceCapabilityV0,
}

#[derive(Debug, Clone, PartialEq, Eq)]
pub struct CompletionProviderCapabilityV0 {
    pub trigger_characters: Vec<&'static str>,
    pub resolve_provider: bool,
}

#[derive(Debug, Clone, PartialEq, Eq)]
pub struct CodeActionProviderCapabilityV0 {
    pub code_action_kinds: Vec<&'static str>,
    pub resolve_provider: bool,
}

#[derive(Debug, Clone, PartialEq, Eq)]
pub struct ResolveProviderCapabilityV0 {
    pub resolve_provider: bool,
}

#[derive(Debug, Clone, PartialEq, Eq)]
pub struct RenameProviderCapabilityV0 {
    pub prepare_provider: bool,
}

#[derive(Debug, Clone, PartialEq, Eq)]
pub struct WorkspaceCapabilityV0 {
    pub workspace_folders: WorkspaceFoldersCapabilityV0,
}

#[derive(Debug, Clone, PartialEq, Eq)]
pub struct WorkspaceFoldersCapabilityV0 {
    pub supported: bool,
    pub change_notifications: bool,
}

/// One LSP method and the component that owns its handling.
#[derive(Debug, Clone, PartialEq, Eq)]
pub struct LspHandlerSurfaceV0 {
    pub method: &'static str,
    pub node_owner: &'static str,
    pub rust_owner_target: &'static str,
    pub migration_state: &'static str,
}

/// One phase of the migration plan.
#[derive(Debug, Clone, PartialEq, Eq)]
pub struct LspMigrationPhaseV0 {
    pub phase: &'static str,
    pub goal: &'static str,
    pub exit_gate: &'static str,
}

/// How thin editor hosts launch and talk to this server.
#[derive(Debug, Clone, PartialEq, Eq)]
pub struct ThinClientEndpointV0 {
    pub product: &'static str,
    pub endpoint_name: &'static str,
    pub transport_contract: &'static str,
    pub command_owner: &'static str,
    pub standalone_package: &'static str,
    pub split_repository: &'static str,
    pub cargo_install_command: &'static str,
    pub node_fallback_allowed: bool,
    pub file_watcher_globs: Vec<&'static str>,
    pub host_responsibilities: Vec<&'static str>,
    pub rust_responsibilities: Vec<&'static str>,
}

/// How the server is distributed to editors other than VS Code.
#[derive(Debug, Clone, PartialEq, Eq)]
pub struct MultiEditorDistributionV0 {
    pub product: &'static str,
    pub owner: &'static str,
    pub distribution_model: &'static str,
    pub supported_editors: Vec<&'static str>,
    pub install_surfaces: Vec<&'static str>,
    pub documentation: Vec<&'static str>,
    pub endpoint_policy: Vec<&'static str>,
}

/// Which components own the source-side provider facts.
#[derive(Debug, Clone, PartialEq, Eq)]
pub struct SourceProviderDirectRustAdapterV0 {
    pub product: &'static str,
    pub candidate_owner: &'static str,
    pub style_definition_owner: &'static str,
    pub type_fact_owner: &'static str,
    pub request_path_policy: Vec<&'static str>,
    pub provider_surfaces: Vec<&'static str>,
}

/// What `source_provider_direct_rust_adapter_contract` returns.
pub open spec fn is_source_provider_direct_rust_adapter_contract(res: SourceProviderDirectRustAdapterV0) -> bool {
    &&& res.product@ == "omena-lsp-server.source-provider-direct-rust-adapter"@
    &&& res.candidate_owner@ == "omena-query/sourceSyntaxIndex"@
    &&& res.style_definition_owner@ == "omena-query/styleHoverCandidates"@
    &&& res.type_fact_owner@ == "omena-tsgo-client"@
    &&& res.request_path_policy@ == seq![
        "noNodeWorkspaceTypeResolverOnSourceProviderPath",
        "buildQuerySourceSyntaxIndexOnDocumentChange",
        "dedupeTargetAwareSourceCandidates",
        "consumeQueryStyleHoverCandidates",
        "consumeQuerySassModuleSources",
        "consumeTsgoTypeFactsForTypedCxProjection",
        "consumeSassPartialEvaluatorGeneratedSelectors",
        "useOpenedDocumentIndexesBeforeWorkspaceFallback",
        "unresolvedCandidatesRemainFastDiagnostics"
    ]
    &&& res.provider_surfaces@ == seq![
        "textDocument/hover",
        "textDocument/definition",
        "textDocument/references",
        "textDocument/completion",
        "textDocument/publishDiagnostics"
    ]
}

/// The source-provider adapter this server declares.
pub fn source_provider_direct_rust_adapter_contract() -> (res: SourceProviderDirectRustAdapterV0)
    ensures
        is_source_provider_direct_rust_adapter_contract(res),
{
    SourceProviderDirectRustAdapterV0 {
        product: "omena-lsp-server.source-provider-direct-rust-adapter",
        candidate_owner: "omena-query/sourceSyntaxIndex",
        style_definition_owner: "omena-query/styleHoverCandidates",
        type_fact_owner: "omena-tsgo-client",
        request_path_policy: vec![
            "noNodeWorkspaceTypeResolverOnSourceProviderPath",
            "buildQuerySourceSyntaxIndexOnDocumentChange",
            "dedupeTargetAwareSourceCandidates",
            "consumeQueryStyleHoverCandidates",
            "consumeQuerySassModuleSources",
            "consumeTsgoTypeFactsForTypedCxProjection",
            "consumeSassPartialEvaluatorGeneratedSelectors",
            "useOpenedDocumentIndexesBeforeWorkspaceFallback",
            "unresolvedCandidatesRemainFastDiagnostics",
        ],
        provider_surfaces: vec![
            "textDocument/hover",
            "textDocument/definition",
            "textDocument/references",
            "textDocument/completion",
            "textDocument/publishDiagnostics",
        ],
    }
}

/// What `thin_client_endpoint_contract` returns.
pub open spec fn is_thin_client_endpoint_contract(res: ThinClientEndpointV0) -> bool {
    &&& res.product@ == "omena-lsp-server.thin-client-endpoint"@
    &&& res.endpoint_name@ == "css-module-explainer.thin-client-runtime-endpoint"@
    &&& res.transport_contract@ == "LSP stdio JSON-RPC"@
    &&& res.command_owner@ == "dist/bin/<platform>-<arch>/omena-lsp-server"@
    &&& res.standalone_package@ == "omena-lsp-server"@
    &&& res.split_repository@ == "https://github.com/omenien/omena-lsp-server"@
    &&& res.cargo_install_command@ == "cargo install omena-lsp-server --version 0.1.3"@
    &&& !res.node_fallback_allowed
    &&& res.file_watcher_globs@ == seq![
        "**/*.module.{scss,css,less}",
        "**/*.{ts,tsx,js,jsx,mts,cts,mjs,cjs,d.ts}",
        "**/tsconfig*.json",
        "**/jsconfig*.json"
    ]
    &&& res.host_responsibilities@ == seq![
        "resolvePackagedRustBinary",
        "resolveStandaloneRustCommand",
        "buildThinClientServerOptions",
        "declareStaticDocumentSelector",
        "startLanguageClient",
        "registerStaticFileWatchers",
        "translateShowReferencesArguments",
        "surfaceStartupErrors"
    ]
    &&& res.rust_responsibilities@ == seq![
        "ownLspLifecycle",
        "ownWorkspaceState",
        "ownDiagnosticsScheduling",
        "ownProviderExecution",
        "ownTsgoClientLifecycle"
    ]
}

/// The thin-client endpoint this server declares.
pub fn thin_client_endpoint_contract() -> (res: ThinClientEndpointV0)
    ensures
        is_thin_client_endpoint_contract(res),
{
    ThinClientEndpointV0 {
        product: "omena-lsp-server.thin-client-endpoint",
        endpoint_name: "css-module-explainer.thin-client-runtime-endpoint",
        transport_contract: "LSP stdio JSON-RPC",
        command_owner: "dist/bin/<platform>-<arch>/omena-lsp-server",
        standalone_package: "omena-lsp-server",
        split_repository: "https://github.com/omenien/omena-lsp-server",
        cargo_install_command: "cargo install omena-lsp-server --version 0.1.3",
        node_fallback_allowed: false,
        file_watcher_globs: vec![
            "**/*.module.{scss,css,less}",
            "**/*.{ts,tsx,js,jsx,mts,cts,mjs,cjs,d.ts}",
            "**/tsconfig*.json",
            "**/jsconfig*.json",
        ],
        host_responsibilities: vec![
            "resolvePackagedRustBinary",
            "resolveStandaloneRustCommand",
            "buildThinClientServerOptions",
            "declareStaticDocumentSelector",
            "startLanguageClient",
            "registerStaticFileWatchers",
            "translateShowReferencesArguments",
            "surfaceStartupErrors",
        ],
        rust_responsibilities: vec![
            "ownLspLifecycle",
            "ownWorkspaceState",
            "ownDiagnosticsScheduling",
            "ownProviderExecution",
            "ownTsgoClientLifecycle",
        ],
    }
}

/// What `multi_editor_distribution_contract` returns.
pub open spec fn is_multi_editor_distribution_contract(res: MultiEditorDistributionV0) -> bool {
    &&& res.product@ == "omena-lsp-server.multi-editor-distribution"@
    &&& res.owner@ == "omena-lsp-server/distribution"@
    &&& res.distribution_model@ == "standaloneRustLspServerWithThinEditorHosts"@
    &&& res.supported_editors@ == seq!["vscode", "neovim", "zed"]
    &&& res.install_surfaces@ == seq![
        "vsixBundledDistBinary",
        "cargoInstallOmenaLspServer",
        "repoLocalDistBin"
    ]
    &&& res.documentation@ == seq![
        "client/src/extension.ts",
        "docs/clients/neovim.md",
        "docs/clients/zed.md"
    ]
    &&& res.endpoint_policy@ == seq![
        "standaloneRustServerIsPrimaryMultiEditorEndpoint",
        "nodeLspServerIsNotPrimaryEndpoint",
        "editorClientsDoNotImplementProviderSemantics",
        "editorsMayRunBesideNativeTypeScriptServer"
    ]
}

/// The multi-editor distribution this server declares.
pub fn multi_editor_distribution_contract() -> (res: MultiEditorDistributionV0)
    ensures
        is_multi_editor_distribution_contract(res),
{
    MultiEditorDistributionV0 {
        product: "omena-lsp-server.multi-editor-distribution",
        owner: "omena-lsp-server/distribution",
        distribution_model: "standaloneRustLspServerWithThinEditorHosts",
        supported_editors: vec!["vscode", "neovim", "zed"],
        install_surfaces: vec![
            "vsixBundledDistBinary",
            "cargoInstallOmenaLspServer",
            "repoLocalDistBin",
        ],
        documentation: vec![
            "client/src/extension.ts",
            "docs/clients/neovim.md",
            "docs/clients/zed.md",
        ],
        endpoint_policy: vec![
            "standaloneRustServerIsPrimaryMultiEditorEndpoint",
            "nodeLspServerIsNotPrimaryEndpoint",
            "editorClientsDoNotImplementProviderSemantics",
            "editorsMayRunBesideNativeTypeScriptServer",
        ],
    }
}

/// What `current_node_lsp_capability_contract` returns.
pub open spec fn is_current_node_lsp_capability_contract(res: OmenaLspServerCapabilitiesV0) -> bool {
    &&& res.text_document_sync == NODE_TEXT_DOCUMENT_SYNC_KIND
    &&& res.definition_provider
    &&& res.hover_provider
    &&& res.completion_provider.trigger_characters@ == seq!["'", "\"", "`", ",", ".", "$", "@", "-"]
    &&& !res.completion_provider.resolve_provider
    &&& res.code_action_provider.code_action_kinds@ == seq!["quickfix"]
    &&& !res.code_action_provider.resolve_provider
    &&& res.references_provider
    &&& !res.code_lens_provider.resolve_provider
    &&& res.rename_provider.prepare_provider
    &&& res.workspace.workspace_folders.supported
    &&& res.workspace.workspace_folders.change_notifications
}

/// The capabilities this server advertises: incremental text sync, every provider
/// except resolve, quick-fix code actions, rename with prepare, and workspace folders.
pub fn current_node_lsp_capability_contract() -> (res: OmenaLspServerCapabilitiesV0)
    ensures
        is_current_node_lsp_capability_contract(res),
{
    let res = OmenaLspServerCapabilitiesV0 {
        text_document_sync: NODE_TEXT_DOCUMENT_SYNC_KIND,
        definition_provider: true,
        hover_provider: true,
        completion_provider: CompletionProviderCapabilityV0 {
            trigger_characters: vec!["'", "\"", "`", ",", ".", "$", "@", "-"],
            resolve_provider: false,
        },
        code_action_provider: CodeActionProviderCapabilityV0 {
            code_action_kinds: vec!["quickfix"],
            resolve_provider: false,
        },
        references_provider: true,
        code_lens_provider: ResolveProviderCapabilityV0 { resolve_provider: false },
        rename_provider: RenameProviderCapabilityV0 { prepare_provider: true },
        workspace: WorkspaceCapabilityV0 {
            workspace_folders: WorkspaceFoldersCapabilityV0 {
                supported: true,
                change_notifications: true,
            },
        },
    };
    assert(res.completion_provider.trigger_characters@ =~= seq!["'", "\"", "`", ",", ".", "$", "@", "-"]);
    assert(res.code_action_provider.code_action_kinds@ =~= seq!["quickfix"]);
    res
}

/// The owner record of a style-provider request method.
pub open spec fn style_provider_surface(method: &'static str) -> LspHandlerSurfaceV0 {
    LspHandlerSurfaceV0 {
        method,
        node_owner: "server/lsp-server/src/providers",
        rust_owner_target: "omena-lsp-server/providers/style-source",
        migration_state: "providerParity",
    }
}

/// The owner record of a runtime notification or request method.
pub open spec fn runtime_surface(method: &'static str) -> LspHandlerSurfaceV0 {
    LspHandlerSurfaceV0 {
        method,
        node_owner: "server/lsp-server/src/handler-registration.ts",
        rust_owner_target: "omena-lsp-server/runtime",
        migration_state: "implemented",
    }
}

/// The owner record of a diagnostics method.
pub open spec fn diagnostics_surface(method: &'static str) -> LspHandlerSurfaceV0 {
    LspHandlerSurfaceV0 {
        method,
        node_owner: "server/lsp-server/src/diagnostics-scheduler.ts",
        rust_owner_target: "omena-lsp-server/diagnostics",
        migration_state: "implemented",
    }
}

fn style_provider_handler(method: &'static str) -> (res: LspHandlerSurfaceV0)
    ensures
        res == style_provider_surface(method),
{
    LspHandlerSurfaceV0 {
        method,
        node_owner: "server/lsp-server/src/providers",
        rust_owner_target: "omena-lsp-server/providers/style-source",
        migration_state: "providerParity",
    }
}

fn runtime_handler(method: &'static str) -> (res: LspHandlerSurfaceV0)
    ensures
        res == runtime_surface(method),
{
    LspHandlerSurfaceV0 {
        method,
        node_owner: "server/lsp-server/src/handler-registration.ts",
        rust_owner_target: "omena-lsp-server/runtime",
        migration_state: "implemented",
    }
}

fn diagnostics_handler(method: &'static str) -> (res: LspHandlerSurfaceV0)
    ensures
        res == diagnostics_surface(method),
{
    LspHandlerSurfaceV0 {
        method,
        node_owner: "server/lsp-server/src/diagnostics-scheduler.ts",
        rust_owner_target: "omena-lsp-server/diagnostics",
        migration_state: "implemented",
    }
}

/// What `lsp_handler_surfaces` returns.
pub open spec fn is_lsp_handler_surfaces(res: Vec<LspHandlerSurfaceV0>) -> bool {
    &&& res@ == seq![
        style_provider_surface("textDocument/definition"),
        style_provider_surface("textDocument/hover"),
        style_provider_surface("textDocument/completion"),
        style_provider_surface("textDocument/codeAction"),
        style_provider_surface("textDocument/references"),
        style_provider_surface("textDocument/codeLens"),
        style_provider_surface("textDocument/prepareRename"),
        style_provider_surface("textDocument/rename"),
        runtime_surface("initialized"),
        runtime_surface("textDocument/didOpen"),
        runtime_surface("textDocument/didChange"),
        runtime_surface("textDocument/didClose"),
        runtime_surface("workspace/didChangeWatchedFiles"),
        runtime_surface("workspace/didChangeConfiguration"),
        runtime_surface("workspace/didChangeWorkspaceFolders"),
        diagnostics_surface("textDocument/publishDiagnostics"),
        runtime_surface(CANCEL_REQUEST_METHOD)
    ]
}

/// Every LSP method the server handles, in declaration order, with its owner.
pub fn lsp_handler_surfaces() -> (res: Vec<LspHandlerSurfaceV0>)
    ensures
        is_lsp_handler_surfaces(res),
{
    vec![
        style_provider_handler("textDocument/definition"),
        style_provider_handler("textDocument/hover"),
        style_provider_handler("textDocument/completion"),
        style_provider_handler("textDocument/codeAction"),
        style_provider_handler("textDocument/references"),
        style_provider_handler("textDocument/codeLens"),
        style_provider_handler("textDocument/prepareRename"),
        style_provider_handler("textDocument/rename"),
        runtime_handler("initialized"),
        runtime_handler("textDocument/didOpen"),
        runtime_handler("textDocument/didChange"),
        runtime_handler("textDocument/didClose"),
        runtime_handler("workspace/didChangeWatchedFiles"),
        runtime_handler("workspace/didChangeConfiguration"),
        runtime_handler("workspace/didChangeWorkspaceFolders"),
        diagnostics_handler("textDocument/publishDiagnostics"),
        runtime_handler(CANCEL_REQUEST_METHOD),
    ]
}

/// The record of one migration phase.
pub open spec fn migration_phase(
    phase: &'static str,
    goal: &'static str,
    exit_gate: &'static str,
) -> LspMigrationPhaseV0 {
    LspMigrationPhaseV0 { phase, goal, exit_gate }
}

/// What `lsp_migration_phases` returns.
pub open spec fn is_lsp_migration_phases(res: Vec<LspMigrationPhaseV0>) -> bool {
    &&& res@ == seq![
        migration_phase(
            "phase-0-boundary",
            "declare Rust LSP capability and handler parity with the Node server",
            "rust/omena-lsp-server/boundary",
        ),
        migration_phase(
            "phase-1-shell",
            "own initialize, shutdown, text sync, workspace folders, and watcher state in Rust",
            "rust/omena-lsp-server/runtime-loop",
        ),
        migration_phase(
            "phase-2-style-providers",
            "serve style-side hover, definition, references, diagnostics, and code lens from Rust",
            "rust/omena-lsp-server/provider-parity",
        ),
        migration_phase(
            "phase-3-source-providers",
            "replace Node WorkspaceTypeResolver hot path with a long-lived tsgo client and Rust query runtime",
            "rust/omena-tsgo-client/boundary",
        ),
        migration_phase(
            "phase-4-thin-client",
            "shrink the VS Code extension to UI commands and Rust LSP process orchestration",
            "rust/omena-lsp-server/thin-client-boundary",
        )
    ]
}

/// The five migration phases, in order.
pub fn lsp_migration_phases() -> (res: Vec<LspMigrationPhaseV0>)
    ensures
        is_lsp_migration_phases(res),
{
    vec![
        LspMigrationPhaseV0 {
            phase: "phase-0-boundary",
            goal: "declare Rust LSP capability and handler parity with the Node server",
            exit_gate: "rust/omena-lsp-server/boundary",
        },
        LspMigrationPhaseV0 {
            phase: "phase-1-shell",
            goal: "own initialize, shutdown, text sync, workspace folders, and watcher state in Rust",
            exit_gate: "rust/omena-lsp-server/runtime-loop",
        },
        LspMigrationPhaseV0 {
            phase: "phase-2-style-providers",
            goal: "serve style-side hover, definition, references, diagnostics, and code lens from Rust",
            exit_gate: "rust/omena-lsp-server/provider-parity",
        },
        LspMigrationPhaseV0 {
            phase: "phase-3-source-providers",
            goal: "replace Node WorkspaceTypeResolver hot path with a long-lived tsgo client and Rust query runtime",
            exit_gate: "rust/omena-tsgo-client/boundary",
        },
        LspMigrationPhaseV0 {
            phase: "phase-4-thin-client",
            goal: "shrink the VS Code extension to UI commands and Rust LSP process orchestration",
            exit_gate: "rust/omena-lsp-server/thin-client-boundary",
        },
    ]
}

} // verus!
