use vstd::prelude::*;

verus! {

/// Describes how per-document query indexes are reused between requests.
#[derive(Debug, Clone, PartialEq, Eq)]
pub struct RustQueryReuseBoundaryV0 {
    pub product: &'static str,
    pub owner: &'static str,
    pub reuse_model: &'static str,
    pub cached_surfaces: Vec<&'static str>,
    pub invalidation_policy: Vec<&'static str>,
    pub request_path_policy: Vec<&'static str>,
}

/// What `rust_query_reuse_contract` returns.
pub open spec fn is_rust_query_reuse_contract(res: RustQueryReuseBoundaryV0) -> bool {
    &&& res.product@ == "omena-lsp-server.query-reuse"@
    &&& res.owner@ == "omena-lsp-server/documentQueryReuse"@
    &&& res.reuse_model@ == "documentRevisionOwnedReusableIndexes"@
    &&& res.cached_surfaces@ == seq![
        "styleDocumentSummary",
        "styleHoverCandidates",
        "sourceSyntaxIndex",
        "sourceSelectorCandidates"
    ]
    &&& res.invalidation_policy@ == seq![
        "refreshOnDocumentOpen",
        "refreshOnDocumentContentChange",
        "refreshOnWorkspaceFileReload"
    ]
    &&& res.request_path_policy@ == seq![
        "noRawSourceRescanOnProviderRequest",
        "noStyleSelectorRescanOnProviderRequest",
        "providerRequestsConsumeDocumentIndexes"
    ]
}

/// The query-reuse boundary that this server declares.
pub fn rust_query_reuse_contract() -> (res: RustQueryReuseBoundaryV0)
    ensures
        is_rust_query_reuse_contract(res),
{
    RustQueryReuseBoundaryV0 {
        product: "omena-lsp-server.query-reuse",
        owner: "omena-lsp-server/documentQueryReuse",
        reuse_model: "documentRevisionOwnedReusableIndexes",
        cached_surfaces: vec![
            "styleDocumentSummary",
            "styleHoverCandidates",
            "sourceSyntaxIndex",
            "sourceSelectorCandidates",
        ],
        invalidation_policy: vec![
            "refreshOnDocumentOpen",
            "refreshOnDocumentContentChange",
            "refreshOnWorkspaceFileReload",
        ],
        request_path_policy: vec![
            "noRawSourceRescanOnProviderRequest",
            "noStyleSelectorRescanOnProviderRequest",
            "providerRequestsConsumeDocumentIndexes",
        ],
    }
}

} // verus!
