use vstd::prelude::*;

use crate::boundary::CANCEL_REQUEST_METHOD;
use crate::settings::LspFeatureSettings;
use crate::text::str_equal;

verus! {

/// The request that returns a snapshot of the server's state.
pub const DEBUG_STATE_REQUEST: &'static str = "cssModuleExplainer/rustLspState";

/// The request that answers with the server's clock, to probe its loop.
pub const RUNTIME_LOOP_PROBE_REQUEST: &'static str = "cssModuleExplainer/runtimeLoopProbe";

/// The request that returns the hover candidates of a style document.
pub const STYLE_HOVER_CANDIDATES_REQUEST: &'static str = "cssModuleExplainer/rustStyleHoverCandidates";

/// The request that returns the diagnostics of a style document.
pub const STYLE_DIAGNOSTICS_REQUEST: &'static str = "cssModuleExplainer/rustStyleDiagnostics";

/// The request that returns the diagnostics of a source document.
pub const SOURCE_DIAGNOSTICS_REQUEST: &'static str = "cssModuleExplainer/rustSourceDiagnostics";

/// The JSON-RPC error code of a request that the client cancelled.
pub const REQUEST_CANCELLED_ERROR_CODE: i32 = -32800;

/// The JSON-RPC error code of a request whose method the server does not know.
pub const METHOD_NOT_FOUND_ERROR_CODE: i32 = -32601;

/// The JSON-RPC error code of a message with an id and no method.
pub const INVALID_REQUEST_ERROR_CODE: i32 = -32600;

/// The requests the server answers.
#[derive(Debug, Clone, Copy, PartialEq, Eq, Structural)]
pub enum LspRequestKind {
    Initialize,
    Hover,
    Definition,
    References,
    Completion,
    CodeAction,
    CodeLens,
    PrepareRename,
    Rename,
    DebugState,
    RuntimeLoopProbe,
    StyleHoverCandidates,
    StyleDiagnostics,
    SourceDiagnostics,
    Shutdown,
}

/// The notifications the server acts on.
#[derive(Debug, Clone, Copy, PartialEq, Eq, Structural)]
pub enum LspNotificationKind {
    Initialized,
    DidOpen,
    DidChange,
    DidClose,
    DidChangeWorkspaceFolders,
    DidChangeConfiguration,
    DidChangeWatchedFiles,
    Exit,
}

/// What the server does with one incoming message.
#[derive(Debug, Clone, Copy, PartialEq, Eq, Structural)]
pub enum LspMessageRoute {
    /// A `$/cancelRequest` notification: mark the request it names as cancelled.
    CancelRequest,
    /// A request that was cancelled before it was handled: answer with the
    /// cancellation error.
    RespondCancelled,
    /// A request to handle.
    Request(LspRequestKind),
    /// A request for a provider that the client has switched off: answer with a
    /// null result.
    NullResult,
    /// A notification to act on.
    Notification(LspNotificationKind),
    /// A request for an unknown method: answer with the method-not-found error.
    MethodNotFound,
    /// A message with an id and no method: answer with the invalid-request error.
    InvalidRequest,
    /// Anything else: no answer, nothing to do.
    Ignore,
}

/// The request a method names.
pub open spec fn request_kind_of(method: Seq<char>) -> Option<LspRequestKind> {
    if method == "initialize"@ {
        Some(LspRequestKind::Initialize)
    } else if method == "textDocument/hover"@ {
        Some(LspRequestKind::Hover)
    } else if method == "textDocument/definition"@ {
        Some(LspRequestKind::Definition)
    } else if method == "textDocument/references"@ {
        Some(LspRequestKind::References)
    } else if method == "textDocument/completion"@ {
        Some(LspRequestKind::Completion)
    } else if method == "textDocument/codeAction"@ {
        Some(LspRequestKind::CodeAction)
    } else if method == "textDocument/codeLens"@ {
        Some(LspRequestKind::CodeLens)
    } else if method == "textDocument/prepareRename"@ {
        Some(LspRequestKind::PrepareRename)
    } else if method == "textDocument/rename"@ {
        Some(LspRequestKind::Rename)
    } else if method == DEBUG_STATE_REQUEST@ {
        Some(LspRequestKind::DebugState)
    } else if method == RUNTIME_LOOP_PROBE_REQUEST@ {
        Some(LspRequestKind::RuntimeLoopProbe)
    } else if method == STYLE_HOVER_CANDIDATES_REQUEST@ {
        Some(LspRequestKind::StyleHoverCandidates)
    } else if method == STYLE_DIAGNOSTICS_REQUEST@ {
        Some(LspRequestKind::StyleDiagnostics)
    } else if method == SOURCE_DIAGNOSTICS_REQUEST@ {
        Some(LspRequestKind::SourceDiagnostics)
    } else if method == "shutdown"@ {
        Some(LspRequestKind::Shutdown)
    } else {
        None
    }
}

/// The notification a method names.
pub open spec fn notification_kind_of(method: Seq<char>) -> Option<LspNotificationKind> {
    if method == "initialized"@ {
        Some(LspNotificationKind::Initialized)
    } else if method == "textDocument/didOpen"@ {
        Some(LspNotificationKind::DidOpen)
    } else if method == "textDocument/didChange"@ {
        Some(LspNotificationKind::DidChange)
    } else if method == "textDocument/didClose"@ {
        Some(LspNotificationKind::DidClose)
    } else if method == "workspace/didChangeWorkspaceFolders"@ {
        Some(LspNotificationKind::DidChangeWorkspaceFolders)
    } else if method == "workspace/didChangeConfiguration"@ {
        Some(LspNotificationKind::DidChangeConfiguration)
    } else if method == "workspace/didChangeWatchedFiles"@ {
        Some(LspNotificationKind::DidChangeWatchedFiles)
    } else if method == "exit"@ {
        Some(LspNotificationKind::Exit)
    } else {
        None
    }
}

/// Whether the client's settings let the server answer a request: hover,
/// definition, references (code lenses too), completion and rename (prepare too)
/// can be switched off; the other requests are always answered.
pub open spec fn request_enabled(kind: LspRequestKind, features: LspFeatureSettings) -> bool {
    match kind {
        LspRequestKind::Hover => features.hover,
        LspRequestKind::Definition => features.definition,
        LspRequestKind::References => features.references,
        LspRequestKind::CodeLens => features.references,
        LspRequestKind::Completion => features.completion,
        LspRequestKind::PrepareRename => features.rename,
        LspRequestKind::Rename => features.rename,
        _ => true,
    }
}

/// The route of a message with method `method` (if it has one), an id or not,
/// whose id the client has cancelled (`cancelled`) or not, under `features`.
pub open spec fn route_of(
    method: Option<Seq<char>>,
    has_id: bool,
    cancelled: bool,
    features: LspFeatureSettings,
) -> LspMessageRoute {
    if method == Some(CANCEL_REQUEST_METHOD@) && !has_id {
        LspMessageRoute::CancelRequest
    } else if has_id && cancelled {
        LspMessageRoute::RespondCancelled
    } else {
        match method {
            Some(m) => if has_id {
                match request_kind_of(m) {
                    Some(kind) => if request_enabled(kind, features) {
                        LspMessageRoute::Request(kind)
                    } else {
                        LspMessageRoute::NullResult
                    },
                    None => LspMessageRoute::MethodNotFound,
                }
            } else {
                match notification_kind_of(m) {
                    Some(kind) => LspMessageRoute::Notification(kind),
                    None => LspMessageRoute::Ignore,
                }
            },
            None => if has_id {
                LspMessageRoute::InvalidRequest
            } else {
                LspMessageRoute::Ignore
            },
        }
    }
}

/// The view of an optional method name.
pub open spec fn opt_str_view(s: Option<&str>) -> Option<Seq<char>> {
    match s {
        Some(t) => Some(t@),
        None => None,
    }
}

fn request_kind(method: &str) -> (res: Option<LspRequestKind>)
    ensures
        res == request_kind_of(method@),
{
    if str_equal(method, "initialize") {
        Some(LspRequestKind::Initialize)
    } else if str_equal(method, "textDocument/hover") {
        Some(LspRequestKind::Hover)
    } else if str_equal(method, "textDocument/definition") {
        Some(LspRequestKind::Definition)
    } else if str_equal(method, "textDocument/references") {
        Some(LspRequestKind::References)
    } else if str_equal(method, "textDocument/completion") {
        Some(LspRequestKind::Completion)
    } else if str_equal(method, "textDocument/codeAction") {
        Some(LspRequestKind::CodeAction)
    } else if str_equal(method, "textDocument/codeLens") {
        Some(LspRequestKind::CodeLens)
    } else if str_equal(method, "textDocument/prepareRename") {
        Some(LspRequestKind::PrepareRename)
    } else if str_equal(method, "textDocument/rename") {
        Some(LspRequestKind::Rename)
    } else if str_equal(method, DEBUG_STATE_REQUEST) {
        Some(LspRequestKind::DebugState)
    } else if str_equal(method, RUNTIME_LOOP_PROBE_REQUEST) {
        Some(LspRequestKind::RuntimeLoopProbe)
    } else if str_equal(method, STYLE_HOVER_CANDIDATES_REQUEST) {
        Some(LspRequestKind::StyleHoverCandidates)
    } else if str_equal(method, STYLE_DIAGNOSTICS_REQUEST) {
        Some(LspRequestKind::StyleDiagnostics)
    } else if str_equal(method, SOURCE_DIAGNOSTICS_REQUEST) {
        Some(LspRequestKind::SourceDiagnostics)
    } else if str_equal(method, "shutdown") {
        Some(LspRequestKind::Shutdown)
    } else {
        None
    }
}

fn notification_kind(method: &str) -> (res: Option<LspNotificationKind>)
    ensures
        res == notification_kind_of(method@),
{
    if str_equal(method, "initialized") {
        Some(LspNotificationKind::Initialized)
    } else if str_equal(method, "textDocument/didOpen") {
        Some(LspNotificationKind::DidOpen)
    } else if str_equal(method, "textDocument/didChange") {
        Some(LspNotificationKind::DidChange)
    } else if str_equal(method, "textDocument/didClose") {
        Some(LspNotificationKind::DidClose)
    } else if str_equal(method, "workspace/didChangeWorkspaceFolders") {
        Some(LspNotificationKind::DidChangeWorkspaceFolders)
    } else if str_equal(method, "workspace/didChangeConfiguration") {
        Some(LspNotificationKind::DidChangeConfiguration)
    } else if str_equal(method, "workspace/didChangeWatchedFiles") {
        Some(LspNotificationKind::DidChangeWatchedFiles)
    } else if str_equal(method, "exit") {
        Some(LspNotificationKind::Exit)
    } else {
        None
    }
}

fn request_is_enabled(kind: LspRequestKind, features: &LspFeatureSettings) -> (res: bool)
    ensures
        res == request_enabled(kind, *features),
{
    match kind {
        LspRequestKind::Hover => features.hover,
        LspRequestKind::Definition => features.definition,
        LspRequestKind::References => features.references,
        LspRequestKind::CodeLens => features.references,
        LspRequestKind::Completion => features.completion,
        LspRequestKind::PrepareRename => features.rename,
        LspRequestKind::Rename => features.rename,
        _ => true,
    }
}

/// Decides what to do with a message: `method` is its method, if it has one;
/// `has_id` whether it carries a request id; `cancelled` whether the client
/// cancelled that id before the message was handled.
pub fn route_lsp_message(
    method: Option<&str>,
    has_id: bool,
    cancelled: bool,
    features: &LspFeatureSettings,
) -> (res: LspMessageRoute)
    ensures
        res == route_of(opt_str_view(method), has_id, cancelled, *features),
{
    let is_cancel = match method {
        Some(m) => str_equal(m, CANCEL_REQUEST_METHOD),
        None => false,
    };
    if is_cancel && !has_id {
        return LspMessageRoute::CancelRequest;
    }
    if has_id && cancelled {
        return LspMessageRoute::RespondCancelled;
    }
    match method {
        Some(m) => if has_id {
            match request_kind(m) {
                Some(kind) => if request_is_enabled(kind, features) {
                    LspMessageRoute::Request(kind)
                } else {
                    LspMessageRoute::NullResult
                },
                None => LspMessageRoute::MethodNotFound,
            }
        } else {
            match notification_kind(m) {
                Some(kind) => LspMessageRoute::Notification(kind),
                None => LspMessageRoute::Ignore,
            }
        },
        None => if has_id {
            LspMessageRoute::InvalidRequest
        } else {
            LspMessageRoute::Ignore
        },
    }
}

/// The JSON-RPC error that a route answers with, as code and message: the
/// cancellation error, method-not-found or invalid-request; none for the others.
pub fn route_error(route: LspMessageRoute) -> (res: Option<(i32, &'static str)>)
    ensures
        match route {
            LspMessageRoute::RespondCancelled => res matches Some((code, message)) && code
                == REQUEST_CANCELLED_ERROR_CODE && message@ == "Request cancelled"@,
            LspMessageRoute::MethodNotFound => res matches Some((code, message)) && code
                == METHOD_NOT_FOUND_ERROR_CODE && message@ == "Method not found"@,
            LspMessageRoute::InvalidRequest => res matches Some((code, message)) && code
                == INVALID_REQUEST_ERROR_CODE && message@ == "Invalid Request"@,
            _ => res is None,
        },
{
    match route {
        LspMessageRoute::RespondCancelled => Some((REQUEST_CANCELLED_ERROR_CODE, "Request cancelled")),
        LspMessageRoute::MethodNotFound => Some((METHOD_NOT_FOUND_ERROR_CODE, "Method not found")),
        LspMessageRoute::InvalidRequest => Some((INVALID_REQUEST_ERROR_CODE, "Invalid Request")),
        _ => None,
    }
}

/// A request whose id the client cancelled is answered with the cancellation
/// error before any provider runs, whatever its method and the settings.
pub proof fn law_cancelled_requests_skip_provider_work(
    method: Option<Seq<char>>,
    features: LspFeatureSettings,
)
    ensures
        route_of(method, true, true, features) == LspMessageRoute::RespondCancelled,
{
}

/// A request for a provider that the client switched off is answered with a null
/// result, never handled.
pub proof fn law_switched_off_providers_answer_null(
    method: Seq<char>,
    features: LspFeatureSettings,
)
    requires
        request_kind_of(method) matches Some(kind) && !request_enabled(kind, features),
    ensures
        route_of(Some(method), true, false, features) == LspMessageRoute::NullResult,
{
}

/// Notifications are never answered, and requests always are: a message without
/// an id routes to no response, one with an id to a response of some kind.
pub proof fn law_only_requests_are_answered(
    method: Option<Seq<char>>,
    has_id: bool,
    cancelled: bool,
    features: LspFeatureSettings,
)
    ensures
        !has_id ==> (route_of(method, has_id, cancelled, features) matches LspMessageRoute::CancelRequest
            || route_of(method, has_id, cancelled, features) matches LspMessageRoute::Notification(_)
            || route_of(method, has_id, cancelled, features) matches LspMessageRoute::Ignore),
        has_id ==> !(route_of(method, has_id, cancelled, features) matches LspMessageRoute::CancelRequest
            || route_of(method, has_id, cancelled, features) matches LspMessageRoute::Notification(_)
            || route_of(method, has_id, cancelled, features) matches LspMessageRoute::Ignore),
{
}

proof fn lemma_hover_literal()
    ensures
        request_kind_of("textDocument/hover"@) == Some(LspRequestKind::Hover),
        "textDocument/hover"@ != CANCEL_REQUEST_METHOD@,
{
    reveal_strlit("initialize");
    reveal_strlit("textDocument/hover");
    reveal_strlit("$/cancelRequest");
    assert("textDocument/hover"@.len() != "initialize"@.len());
    assert("textDocument/hover"@ != "initialize"@);
    assert("textDocument/hover"@.len() != "$/cancelRequest"@.len());
    assert("textDocument/hover"@ != "$/cancelRequest"@);
}

proof fn lemma_definition_literal()
    ensures
        request_kind_of("textDocument/definition"@) == Some(LspRequestKind::Definition),
        "textDocument/definition"@ != CANCEL_REQUEST_METHOD@,
{
    reveal_strlit("initialize");
    reveal_strlit("textDocument/hover");
    reveal_strlit("textDocument/definition");
    reveal_strlit("$/cancelRequest");
    assert("textDocument/definition"@.len() != "initialize"@.len());
    assert("textDocument/definition"@ != "initialize"@);
    assert("textDocument/definition"@.len() != "textDocument/hover"@.len());
    assert("textDocument/definition"@ != "textDocument/hover"@);
    assert("textDocument/definition"@.len() != "$/cancelRequest"@.len());
    assert("textDocument/definition"@ != "$/cancelRequest"@);
}

proof fn lemma_references_literal()
    ensures
        request_kind_of("textDocument/references"@) == Some(LspRequestKind::References),
        "textDocument/references"@ != CANCEL_REQUEST_METHOD@,
{
    reveal_strlit("initialize");
    reveal_strlit("textDocument/hover");
    reveal_strlit("textDocument/definition");
    reveal_strlit("textDocument/references");
    reveal_strlit("$/cancelRequest");
    assert("textDocument/references"@.len() != "initialize"@.len());
    assert("textDocument/references"@ != "initialize"@);
    assert("textDocument/references"@.len() != "textDocument/hover"@.len());
    assert("textDocument/references"@ != "textDocument/hover"@);
    assert("textDocument/references"@[13] != "textDocument/definition"@[13]);
    assert("textDocument/references"@ != "textDocument/definition"@);
    assert("textDocument/references"@.len() != "$/cancelRequest"@.len());
    assert("textDocument/references"@ != "$/cancelRequest"@);
}

proof fn lemma_codelens_literal()
    ensures
        request_kind_of("textDocument/codeLens"@) == Some(LspRequestKind::CodeLens),
        "textDocument/codeLens"@ != CANCEL_REQUEST_METHOD@,
{
    reveal_strlit("initialize");
    reveal_strlit("textDocument/hover");
    reveal_strlit("textDocument/definition");
    reveal_strlit("textDocument/references");
    reveal_strlit("textDocument/completion");
    reveal_strlit("textDocument/codeAction");
    reveal_strlit("textDocument/codeLens");
    reveal_strlit("$/cancelRequest");
    assert("textDocument/codeLens"@.len() != "initialize"@.len());
    assert("textDocument/codeLens"@ != "initialize"@);
    assert("textDocument/codeLens"@.len() != "textDocument/hover"@.len());
    assert("textDocument/codeLens"@ != "textDocument/hover"@);
    assert("textDocument/codeLens"@.len() != "textDocument/definition"@.len());
    assert("textDocument/codeLens"@ != "textDocument/definition"@);
    assert("textDocument/codeLens"@.len() != "textDocument/references"@.len());
    assert("textDocument/codeLens"@ != "textDocument/references"@);
    assert("textDocument/codeLens"@.len() != "textDocument/completion"@.len());
    assert("textDocument/codeLens"@ != "textDocument/completion"@);
    assert("textDocument/codeLens"@.len() != "textDocument/codeAction"@.len());
    assert("textDocument/codeLens"@ != "textDocument/codeAction"@);
    assert("textDocument/codeLens"@.len() != "$/cancelRequest"@.len());
    assert("textDocument/codeLens"@ != "$/cancelRequest"@);
}

proof fn lemma_completion_literal()
    ensures
        request_kind_of("textDocument/completion"@) == Some(LspRequestKind::Completion),
        "textDocument/completion"@ != CANCEL_REQUEST_METHOD@,
{
    reveal_strlit("initialize");
    reveal_strlit("textDocument/hover");
    reveal_strlit("textDocument/definition");
    reveal_strlit("textDocument/references");
    reveal_strlit("textDocument/completion");
    reveal_strlit("$/cancelRequest");
    assert("textDocument/completion"@.len() != "initialize"@.len());
    assert("textDocument/completion"@ != "initialize"@);
    assert("textDocument/completion"@.len() != "textDocument/hover"@.len());
    assert("textDocument/completion"@ != "textDocument/hover"@);
    assert("textDocument/completion"@[13] != "textDocument/definition"@[13]);
    assert("textDocument/completion"@ != "textDocument/definition"@);
    assert("textDocument/completion"@[13] != "textDocument/references"@[13]);
    assert("textDocument/completion"@ != "textDocument/references"@);
    assert("textDocument/completion"@.len() != "$/cancelRequest"@.len());
    assert("textDocument/completion"@ != "$/cancelRequest"@);
}

proof fn lemma_preparerename_literal()
    ensures
        request_kind_of("textDocument/prepareRename"@) == Some(LspRequestKind::PrepareRename),
        "textDocument/prepareRename"@ != CANCEL_REQUEST_METHOD@,
{
    reveal_strlit("initialize");
    reveal_strlit("textDocument/hover");
    reveal_strlit("textDocument/definition");
    reveal_strlit("textDocument/references");
    reveal_strlit("textDocument/completion");
    reveal_strlit("textDocument/codeAction");
    reveal_strlit("textDocument/codeLens");
    reveal_strlit("textDocument/prepareRename");
    reveal_strlit("$/cancelRequest");
    assert("textDocument/prepareRename"@.len() != "initialize"@.len());
    assert("textDocument/prepareRename"@ != "initialize"@);
    assert("textDocument/prepareRename"@.len() != "textDocument/hover"@.len());
    assert("textDocument/prepareRename"@ != "textDocument/hover"@);
    assert("textDocument/prepareRename"@.len() != "textDocument/definition"@.len());
    assert("textDocument/prepareRename"@ != "textDocument/definition"@);
    assert("textDocument/prepareRename"@.len() != "textDocument/references"@.len());
    assert("textDocument/prepareRename"@ != "textDocument/references"@);
    assert("textDocument/prepareRename"@.len() != "textDocument/completion"@.len());
    assert("textDocument/prepareRename"@ != "textDocument/completion"@);
    assert("textDocument/prepareRename"@.len() != "textDocument/codeAction"@.len());
    assert("textDocument/prepareRename"@ != "textDocument/codeAction"@);
    assert("textDocument/prepareRename"@.len() != "textDocument/codeLens"@.len());
    assert("textDocument/prepareRename"@ != "textDocument/codeLens"@);
    assert("textDocument/prepareRename"@.len() != "$/cancelRequest"@.len());
    assert("textDocument/prepareRename"@ != "$/cancelRequest"@);
}

proof fn lemma_rename_literal()
    ensures
        request_kind_of("textDocument/rename"@) == Some(LspRequestKind::Rename),
        "textDocument/rename"@ != CANCEL_REQUEST_METHOD@,
{
    reveal_strlit("initialize");
    reveal_strlit("textDocument/hover");
    reveal_strlit("textDocument/definition");
    reveal_strlit("textDocument/references");
    reveal_strlit("textDocument/completion");
    reveal_strlit("textDocument/codeAction");
    reveal_strlit("textDocument/codeLens");
    reveal_strlit("textDocument/prepareRename");
    reveal_strlit("textDocument/rename");
    reveal_strlit("$/cancelRequest");
    assert("textDocument/rename"@.len() != "initialize"@.len());
    assert("textDocument/rename"@ != "initialize"@);
    assert("textDocument/rename"@.len() != "textDocument/hover"@.len());
    assert("textDocument/rename"@ != "textDocument/hover"@);
    assert("textDocument/rename"@.len() != "textDocument/definition"@.len());
    assert("textDocument/rename"@ != "textDocument/definition"@);
    assert("textDocument/rename"@.len() != "textDocument/references"@.len());
    assert("textDocument/rename"@ != "textDocument/references"@);
    assert("textDocument/rename"@.len() != "textDocument/completion"@.len());
    assert("textDocument/rename"@ != "textDocument/completion"@);
    assert("textDocument/rename"@.len() != "textDocument/codeAction"@.len());
    assert("textDocument/rename"@ != "textDocument/codeAction"@);
    assert("textDocument/rename"@.len() != "textDocument/codeLens"@.len());
    assert("textDocument/rename"@ != "textDocument/codeLens"@);
    assert("textDocument/rename"@.len() != "textDocument/prepareRename"@.len());
    assert("textDocument/rename"@ != "textDocument/prepareRename"@);
    assert("textDocument/rename"@.len() != "$/cancelRequest"@.len());
    assert("textDocument/rename"@ != "$/cancelRequest"@);
}

/// Law: each provider request is handled exactly when the client's setting for it
/// is on, and otherwise answered with a null result: hover, definition,
/// references (and code lenses), completion, and rename (and prepare-rename), each
/// by its own switch.
pub proof fn law_feature_switches_gate_requests(features: LspFeatureSettings)
    ensures
        route_of(Some("textDocument/hover"@), true, false, features) == if features.hover {
            LspMessageRoute::Request(LspRequestKind::Hover)
        } else {
            LspMessageRoute::NullResult
        },
        route_of(Some("textDocument/definition"@), true, false, features) == if features.definition {
            LspMessageRoute::Request(LspRequestKind::Definition)
        } else {
            LspMessageRoute::NullResult
        },
        route_of(Some("textDocument/references"@), true, false, features) == if features.references {
            LspMessageRoute::Request(LspRequestKind::References)
        } else {
            LspMessageRoute::NullResult
        },
        route_of(Some("textDocument/codeLens"@), true, false, features) == if features.references {
            LspMessageRoute::Request(LspRequestKind::CodeLens)
        } else {
            LspMessageRoute::NullResult
        },
        route_of(Some("textDocument/completion"@), true, false, features) == if features.completion {
            LspMessageRoute::Request(LspRequestKind::Completion)
        } else {
            LspMessageRoute::NullResult
        },
        route_of(Some("textDocument/prepareRename"@), true, false, features) == if features.rename {
            LspMessageRoute::Request(LspRequestKind::PrepareRename)
        } else {
            LspMessageRoute::NullResult
        },
        route_of(Some("textDocument/rename"@), true, false, features) == if features.rename {
            LspMessageRoute::Request(LspRequestKind::Rename)
        } else {
            LspMessageRoute::NullResult
        },
{
    lemma_hover_literal();
    lemma_definition_literal();
    lemma_references_literal();
    lemma_codelens_literal();
    lemma_completion_literal();
    lemma_preparerename_literal();
    lemma_rename_literal();
}

} // verus!
