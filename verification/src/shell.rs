use vstd::prelude::*;
use vstd::string::StringSliceAdditionalSpecFns;
use vstd::utf8::encode_utf8;

use crate::dispatch::{
    opt_str_view, route_lsp_message, route_of, LspMessageRoute, LspNotificationKind, LspRequestKind,
};
use crate::documents::{
    lemma_dropped_document_is_gone,
    document_at, document_dropped, document_position, document_put, documents_sorted,
    drop_document, holds_document, lemma_document_at, put_document, DocumentIndexes,
    LspTextDocumentState,
};
use crate::path::workspace_folder_uri_equivalent;
use crate::path::uris_equivalent;
use crate::position::{
    apply_text_document_content_change, spec_offset_of, ParserRangeV0,
};
use crate::registry::{
    lemma_folder_count, sorted_by_uri,
    folder_names, law_folder_names_after_insert, law_folder_names_after_remove, lookup,
    resolves_owner, text_bytes, LspWorkspaceFolderState, WorkspaceRuntimeRegistry,
};
use crate::settings::{
    features_toggled, severity_code_of, LspDiagnosticSettings, LspFeatureSettings,
    LspFeatureToggles, LspWatchedFileChangeState,
};
use crate::uri_set::UriSet;

verus! {

/// A workspace folder as the client describes it; one without a URI is ignored.
#[derive(Debug, Clone, PartialEq, Eq)]
pub struct WorkspaceFolderParam {
    pub uri: Option<String>,
    pub name: Option<String>,
}

/// One content change of a `didChange` notification. Without a range the text
/// replaces the whole document; without a text the change does nothing.
#[derive(Debug, Clone, PartialEq, Eq)]
pub struct TextDocumentContentChange {
    pub range: Option<ParserRangeV0>,
    pub text: Option<String>,
}

/// The settings a configuration change carries for this server.
#[derive(Debug, Clone, PartialEq, Eq)]
pub struct ConfigurationSettings {
    pub features: LspFeatureToggles,
    pub severity: Option<String>,
}

/// The names by URI that a list of folder parameters registers, folded into `start`:
/// each folder with a URI is named by its name, or by its URI where it has none.
pub open spec fn names_from_params(
    start: Map<Seq<char>, Seq<char>>,
    params: Seq<WorkspaceFolderParam>,
) -> Map<Seq<char>, Seq<char>>
    decreases params.len(),
{
    if params.len() == 0 {
        start
    } else {
        let before = names_from_params(start, params.drop_last());
        match params.last().uri {
            Some(u) => before.insert(
                u@,
                match params.last().name {
                    Some(n) => n@,
                    None => u@,
                },
            ),
            None => before,
        }
    }
}

/// The effect of one content change on a document's bytes, and whether it changed them.
pub open spec fn change_applied(text: Seq<u8>, change: TextDocumentContentChange) -> (Seq<u8>, bool) {
    match change.text {
        None => (text, false),
        Some(next) => match change.range {
            None => (encode_utf8(next@), true),
            Some(r) => match (spec_offset_of(text, r.start), spec_offset_of(text, r.end)) {
                (Some(s), Some(e)) => if s <= e {
                    (text.subrange(0, s) + encode_utf8(next@) + text.subrange(e, text.len() as int), true)
                } else {
                    (text, false)
                },
                _ => (text, false),
            },
        },
    }
}

/// The effect of a list of content changes, applied in order.
pub open spec fn changes_applied(text: Seq<u8>, changes: Seq<TextDocumentContentChange>) -> (
    Seq<u8>,
    bool,
)
    decreases changes.len(),
{
    if changes.len() == 0 {
        (text, false)
    } else {
        let (t, changed) = changes_applied(text, changes.drop_last());
        let (t2, changed2) = change_applied(t, changes.last());
        (t2, changed || changed2)
    }
}

/// Whether a document survives the removal of workspace folder `workspace`: it is
/// open, or it does not belong to that folder.
pub open spec fn survives_folder_removal(
    doc: LspTextDocumentState,
    open: Set<Seq<char>>,
    workspace: Seq<char>,
) -> bool {
    open.contains(doc.uri@) || !(doc.workspace_folder_uri matches Some(w) && w@ == workspace)
}

/// The documents that survive the removal of workspace folder `workspace`, in order.
pub open spec fn documents_surviving(
    docs: Seq<LspTextDocumentState>,
    open: Set<Seq<char>>,
    workspace: Seq<char>,
) -> Seq<LspTextDocumentState>
    decreases docs.len(),
{
    if docs.len() == 0 {
        docs
    } else {
        let kept = documents_surviving(docs.drop_last(), open, workspace);
        if survives_folder_removal(docs.last(), open, workspace) {
            kept.push(docs.last())
        } else {
            kept
        }
    }
}

/// Removing a workspace folder keeps exactly the documents that are open or
/// belong to another folder (or to none): open documents stay authoritative, and
/// the folder's indexed documents are evicted.
pub proof fn law_folder_removal_keeps_open_and_foreign_documents(
    docs: Seq<LspTextDocumentState>,
    open: Set<Seq<char>>,
    workspace: Seq<char>,
)
    ensures
        forall|d: LspTextDocumentState|
            #[trigger] documents_surviving(docs, open, workspace).contains(d) <==> (docs.contains(d)
                && survives_folder_removal(d, open, workspace)),
    decreases docs.len(),
{
    if docs.len() > 0 {
        let t = docs.drop_last();
        law_folder_removal_keeps_open_and_foreign_documents(t, open, workspace);
        let kept = documents_surviving(t, open, workspace);
        assert forall|d: LspTextDocumentState|
            #[trigger] documents_surviving(docs, open, workspace).contains(d) <==> (docs.contains(d)
                && survives_folder_removal(d, open, workspace)) by {
            assert(docs =~= t.push(docs.last()));
            if docs.contains(d) && d != docs.last() {
                let k = choose|k: int| 0 <= k < docs.len() && docs[k] == d;
                assert(k < docs.len() - 1);
                assert(t[k] == d);
                assert(t.contains(d));
            }
            if t.contains(d) {
                let k = choose|k: int| 0 <= k < t.len() && t[k] == d;
                assert(docs[k] == d);
            }
            if survives_folder_removal(docs.last(), open, workspace) {
                let pushed = kept.push(docs.last());
                if kept.contains(d) {
                    let k = choose|k: int| 0 <= k < kept.len() && kept[k] == d;
                    assert(pushed[k] == d);
                }
                if d == docs.last() {
                    assert(pushed[kept.len() as int] == d);
                }
                if pushed.contains(d) {
                    let k = choose|k: int| 0 <= k < pushed.len() && pushed[k] == d;
                    if k < kept.len() {
                        assert(kept[k] == d);
                    }
                }
            }
        }
    }
}

/// Whether a document may be served for a request made in workspace folder
/// `workspace_folder_uri`: either side without a folder, or equivalent folders.
pub open spec fn folder_compatible(
    workspace_folder_uri: Option<Seq<char>>,
    doc: LspTextDocumentState,
) -> bool {
    match (workspace_folder_uri, doc.workspace_folder_uri) {
        (Some(left), Some(right)) => uris_equivalent(encode_utf8(left), text_bytes(right)),
        _ => true,
    }
}

/// Whether `document` may be served for a request made in `workspace_folder_uri`.
pub fn workspace_folder_compatible(
    workspace_folder_uri: Option<&str>,
    document: &LspTextDocumentState,
) -> (res: bool)
    ensures
        res == folder_compatible(
            match workspace_folder_uri {
                Some(w) => Some(w@),
                None => None,
            },
            *document,
        ),
{
    match (workspace_folder_uri, &document.workspace_folder_uri) {
        (Some(left), Some(right)) => workspace_folder_uri_equivalent(left, right.as_str()),
        _ => true,
    }
}

/// The state of the language server between messages.
pub struct LspShellState {
    shutdown_requested: bool,
    should_exit: bool,
    features: LspFeatureSettings,
    diagnostics: LspDiagnosticSettings,
    workspace_style_index_exhausted_count: usize,
    configuration_change_count: usize,
    documents: Vec<LspTextDocumentState>,
    open_document_uris: UriSet,
    workspace_runtime_registry: WorkspaceRuntimeRegistry,
    watched_file_changes: Vec<LspWatchedFileChangeState>,
}

impl Default for LspShellState {
    fn default() -> (res: Self)
        ensures
            res.wf(),
            res.docs().len() == 0,
            res.folders().len() == 0,
            res.open_uris() == Set::<Seq<char>>::empty(),
    {
        Self::new()
    }
}

impl LspShellState {
    /// The documents, in URI order.
    pub closed spec fn docs(&self) -> Seq<LspTextDocumentState> {
        self.documents@
    }

    /// The URIs of the documents the client has open.
    pub closed spec fn open_uris(&self) -> Set<Seq<char>> {
        self.open_document_uris.set()
    }

    /// The workspace folders, in URI order.
    pub closed spec fn folders(&self) -> Seq<LspWorkspaceFolderState> {
        self.workspace_runtime_registry.view()
    }

    /// Whether the client has asked the server to shut down.
    pub closed spec fn shutdown_flag(&self) -> bool {
        self.shutdown_requested
    }

    /// Whether the client has told the server to exit.
    pub closed spec fn exit_flag(&self) -> bool {
        self.should_exit
    }

    /// The provider switches.
    pub closed spec fn feature_settings(&self) -> LspFeatureSettings {
        self.features
    }

    /// The diagnostics severity setting.
    pub closed spec fn diagnostic_settings(&self) -> LspDiagnosticSettings {
        self.diagnostics
    }

    /// How many configuration changes have arrived.
    pub closed spec fn configuration_changes(&self) -> nat {
        self.configuration_change_count as nat
    }

    /// How many workspace indexing runs ran out of budget.
    pub closed spec fn index_exhaustions(&self) -> nat {
        self.workspace_style_index_exhausted_count as nat
    }

    /// The file changes reported so far, in order.
    pub closed spec fn watched_changes(&self) -> Seq<LspWatchedFileChangeState> {
        self.watched_file_changes@
    }

    /// Whether the state has the flags, settings and counters of `before`: the
    /// shutdown and exit flags, the provider switches and diagnostics severity, the
    /// counts of configuration changes and exhausted indexing runs, and the file
    /// changes reported.
    pub open spec fn keeps_runtime_of(&self, before: &Self) -> bool {
        &&& self.shutdown_flag() == before.shutdown_flag()
        &&& self.exit_flag() == before.exit_flag()
        &&& self.feature_settings() == before.feature_settings()
        &&& self.diagnostic_settings() == before.diagnostic_settings()
        &&& self.configuration_changes() == before.configuration_changes()
        &&& self.index_exhaustions() == before.index_exhaustions()
        &&& self.watched_changes() == before.watched_changes()
    }

    /// Documents sorted by URI, open URIs and folders well formed.
    pub closed spec fn wf(&self) -> bool {
        &&& documents_sorted(self.documents@)
        &&& self.open_document_uris.wf()
        &&& self.workspace_runtime_registry.wf()
    }

    /// A well-formed state holds its documents in strictly increasing URI order and
    /// its folders in strictly increasing URI order: no two documents and no two
    /// folders share a URI, and there are as many folders as folder names.
    pub proof fn lemma_wf(&self)
        requires
            self.wf(),
        ensures
            documents_sorted(self.docs()),
            sorted_by_uri(self.folders()),
            folder_names(self.folders()).dom().finite(),
            folder_names(self.folders()).dom().len() == self.folders().len(),
    {
        self.workspace_runtime_registry.lemma_sorted();
        lemma_folder_count(self.folders());
    }

    /// A state with no documents, no folders and default settings.
    pub fn new() -> (res: Self)
        ensures
            res.wf(),
            !res.shutdown_flag(),
            !res.exit_flag(),
            res.docs().len() == 0,
            res.open_uris() == Set::<Seq<char>>::empty(),
            res.folders().len() == 0,
            res.feature_settings() == (LspFeatureSettings {
                definition: true,
                hover: true,
                completion: true,
                references: true,
                rename: true,
            }),
            res.diagnostic_settings().severity == 2,
            res.configuration_changes() == 0,
            res.index_exhaustions() == 0,
            res.watched_changes().len() == 0,
    {
        LspShellState {
            shutdown_requested: false,
            should_exit: false,
            features: LspFeatureSettings::default(),
            diagnostics: LspDiagnosticSettings::default(),
            workspace_style_index_exhausted_count: 0,
            configuration_change_count: 0,
            documents: Vec::new(),
            open_document_uris: UriSet::new(),
            workspace_runtime_registry: WorkspaceRuntimeRegistry::new(),
            watched_file_changes: Vec::new(),
        }
    }

    /// Whether the client has asked the server to shut down.
    pub fn shutdown_requested(&self) -> (res: bool)
        ensures
            res == self.shutdown_flag(),
    {
        self.shutdown_requested
    }

    /// Whether the client has told the server to exit.
    pub fn should_exit(&self) -> (res: bool)
        ensures
            res == self.exit_flag(),
    {
        self.should_exit
    }

    /// Records a `shutdown` request; nothing else changes.
    pub fn request_shutdown(&mut self)
        requires
            old(self).wf(),
        ensures
            final(self).wf(),
            final(self).feature_settings() == old(self).feature_settings(),
            final(self).diagnostic_settings() == old(self).diagnostic_settings(),
            final(self).configuration_changes() == old(self).configuration_changes(),
            final(self).index_exhaustions() == old(self).index_exhaustions(),
            final(self).watched_changes() == old(self).watched_changes(),
            final(self).shutdown_flag(),
            final(self).exit_flag() == old(self).exit_flag(),
            final(self).docs() == old(self).docs(),
            final(self).open_uris() == old(self).open_uris(),
            final(self).folders() == old(self).folders(),
    {
        self.shutdown_requested = true;
    }

    /// Records an `exit` notification; nothing else changes.
    pub fn request_exit(&mut self)
        requires
            old(self).wf(),
        ensures
            final(self).wf(),
            final(self).feature_settings() == old(self).feature_settings(),
            final(self).diagnostic_settings() == old(self).diagnostic_settings(),
            final(self).configuration_changes() == old(self).configuration_changes(),
            final(self).index_exhaustions() == old(self).index_exhaustions(),
            final(self).watched_changes() == old(self).watched_changes(),
            final(self).exit_flag(),
            final(self).shutdown_flag() == old(self).shutdown_flag(),
            final(self).docs() == old(self).docs(),
            final(self).open_uris() == old(self).open_uris(),
            final(self).folders() == old(self).folders(),
    {
        self.should_exit = true;
    }

    /// Decides what to do with an incoming message (see `route_of`), under the
    /// client's feature settings, and records a `shutdown` request or an `exit`
    /// notification; nothing else changes.
    pub fn route_message(&mut self, method: Option<&str>, has_id: bool, cancelled: bool) -> (res:
        LspMessageRoute)
        requires
            old(self).wf(),
        ensures
            final(self).wf(),
            res == route_of(opt_str_view(method), has_id, cancelled, old(self).feature_settings()),
            final(self).shutdown_flag() == (old(self).shutdown_flag() || res
                == LspMessageRoute::Request(LspRequestKind::Shutdown)),
            final(self).exit_flag() == (old(self).exit_flag() || res == LspMessageRoute::Notification(
                LspNotificationKind::Exit,
            )),
            final(self).docs() == old(self).docs(),
            final(self).open_uris() == old(self).open_uris(),
            final(self).folders() == old(self).folders(),
            final(self).feature_settings() == old(self).feature_settings(),
            final(self).diagnostic_settings() == old(self).diagnostic_settings(),
            final(self).configuration_changes() == old(self).configuration_changes(),
            final(self).index_exhaustions() == old(self).index_exhaustions(),
            final(self).watched_changes() == old(self).watched_changes(),
    {
        let route = route_lsp_message(method, has_id, cancelled, &self.features);
        match route {
            LspMessageRoute::Request(LspRequestKind::Shutdown) => {
                self.shutdown_requested = true;
            },
            LspMessageRoute::Notification(LspNotificationKind::Exit) => {
                self.should_exit = true;
            },
            _ => {},
        }
        route
    }

    /// The number of documents.
    pub fn document_count(&self) -> (res: usize)
        ensures
            res == self.docs().len(),
    {
        self.documents.len()
    }

    /// The number of workspace folders.
    pub fn workspace_folder_count(&self) -> (res: usize)
        ensures
            res == self.folders().len(),
    {
        self.workspace_runtime_registry.len()
    }

    /// The document with URI `uri`, if the server holds one.
    pub fn document(&self, uri: &str) -> (res: Option<&LspTextDocumentState>)
        requires
            self.wf(),
        ensures
            match res {
                Some(d) => document_at(self.docs(), uri@) == Some(*d),
                None => document_at(self.docs(), uri@) is None,
            },
    {
        match document_position(&self.documents, uri) {
            Some(i) => {
                proof {
                    lemma_document_at(self.documents@, i as int);
                }
                Some(&self.documents[i])
            },
            None => None,
        }
    }

    /// The workspace folder with URI `uri`, if there is one.
    pub fn workspace_folder(&self, uri: &str) -> (res: Option<&LspWorkspaceFolderState>)
        requires
            self.wf(),
        ensures
            match res {
                Some(f) => lookup(self.folders(), uri@) == Some(*f),
                None => lookup(self.folders(), uri@) is None,
            },
    {
        self.workspace_runtime_registry.get(uri)
    }

    /// The documents, in URI order.
    pub fn documents(&self) -> (res: &[LspTextDocumentState])
        ensures
            res@ == self.docs(),
    {
        self.documents.as_slice()
    }

    /// The URIs of the open documents, in order.
    pub fn open_document_uris(&self) -> (res: &[String])
        requires
            self.wf(),
        ensures
            crate::uri_set::members(res@) == self.open_uris(),
            crate::uri_set::strings_sorted(res@),
    {
        self.open_document_uris.as_slice()
    }

    /// Copies of the workspace folders, in order.
    pub fn workspace_folder_snapshots(&self) -> (res: Vec<LspWorkspaceFolderState>)
        ensures
            res@ == self.folders(),
    {
        self.workspace_runtime_registry.folder_snapshots()
    }

    /// The provider switches.
    pub fn features(&self) -> (res: LspFeatureSettings)
        ensures
            res == self.feature_settings(),
    {
        self.features
    }

    /// The diagnostics settings.
    pub fn diagnostics(&self) -> (res: LspDiagnosticSettings)
        ensures
            res == self.diagnostic_settings(),
    {
        self.diagnostics
    }

    /// How many configuration changes have arrived.
    pub fn configuration_change_count(&self) -> (res: usize)
        ensures
            res == self.configuration_changes(),
    {
        self.configuration_change_count
    }

    /// How many workspace indexing runs ran out of budget.
    pub fn workspace_style_index_exhausted_count(&self) -> (res: usize)
        ensures
            res == self.index_exhaustions(),
    {
        self.workspace_style_index_exhausted_count
    }

    /// The file changes reported so far, in order.
    pub fn watched_file_changes(&self) -> (res: &[LspWatchedFileChangeState])
        ensures
            res@ == self.watched_changes(),
    {
        self.watched_file_changes.as_slice()
    }

    /// The URI of the workspace folder that owns `document_uri`, if one does.
    pub fn resolve_workspace_folder_uri(&self, document_uri: &str) -> (res: Option<String>)
        requires
            self.wf(),
        ensures
            resolves_owner(self.folders(), document_uri.spec_bytes(), res),
    {
        self.workspace_runtime_registry.resolve_owner_uri(document_uri)
    }

    /// Registers the folders that `initialize` names: the given folders, or else the
    /// root URI as a folder named by itself; any earlier folders are forgotten.
    pub fn initialize_workspace_folders(
        &mut self,
        folders: Option<Vec<WorkspaceFolderParam>>,
        root_uri: Option<String>,
    )
        requires
            old(self).wf(),
        ensures
            final(self).wf(),
            final(self).keeps_runtime_of(old(self)),
            final(self).folders().len() == folder_names(final(self).folders()).dom().len(),
            folder_names(final(self).folders()) == match folders {
                Some(list) => names_from_params(Map::empty(), list@),
                None => match root_uri {
                    Some(root) => Map::<Seq<char>, Seq<char>>::empty().insert(root@, root@),
                    None => Map::<Seq<char>, Seq<char>>::empty(),
                },
            },
            final(self).docs() == old(self).docs(),
            final(self).open_uris() == old(self).open_uris(),
    {
        self.workspace_runtime_registry.clear();
        proof {
            assert(folder_names(self.folders()) =~= Map::<Seq<char>, Seq<char>>::empty());
        }
        match folders {
            Some(list) => {
                let mut i: usize = 0;
                while i < list.len()
                    invariant
                        self.wf(),
                        i <= list@.len(),
                        folder_names(self.folders()) == names_from_params(
                            Map::empty(),
                            list@.subrange(0, i as int),
                        ),
                        self.docs() == old(self).docs(),
                        self.open_uris() == old(self).open_uris(),
                        self.keeps_runtime_of(old(self)),
                    decreases list@.len() - i,
                {
                    let ghost prefix = list@.subrange(0, i + 1);
                    assert(prefix.drop_last() =~= list@.subrange(0, i as int));
                    assert(prefix.last() == list@[i as int]);
                    let folder = &list[i];
                    match &folder.uri {
                        Some(uri) => {
                            let ghost before = self.folders();
                            proof {
                                self.workspace_runtime_registry.lemma_sorted();
                            }
                            let name: &str = match &folder.name {
                                Some(n) => n.as_str(),
                                None => uri.as_str(),
                            };
                            self.workspace_runtime_registry.insert(uri.as_str(), name);
                            proof {
                                law_folder_names_after_insert(before, self.folders(), uri@, name@);
                            }
                        },
                        None => {},
                    }
                    i = i + 1;
                }
                assert(list@.subrange(0, list@.len() as int) =~= list@);
            },
            None => {
                if let Some(root) = root_uri {
                    let ghost before = self.folders();
                    proof {
                        self.workspace_runtime_registry.lemma_sorted();
                    }
                    self.workspace_runtime_registry.insert(root.as_str(), root.as_str());
                    proof {
                        law_folder_names_after_insert(before, self.folders(), root@, root@);
                    }
                }
            },
        }
        proof {
            self.lemma_wf();
        }
    }

    /// A document with URI `uri`, owned by the workspace folder that claims it, and
    /// with no indexes yet.
    fn owned_document(&self, uri: &str, language_id: String, version: i64, text: String) -> (res:
        LspTextDocumentState)
        requires
            self.wf(),
        ensures
            res.uri@ == uri@,
            resolves_owner(self.folders(), uri.spec_bytes(), res.workspace_folder_uri),
            res.language_id == language_id,
            res.version == version,
            res.text == text,
            res.style_summary is None,
            res.style_candidates@.len() == 0,
            res.source_selector_candidates@.len() == 0,
            res.source_syntax.is_empty(),
    {
        let owner = self.workspace_runtime_registry.resolve_owner_uri(uri);
        LspTextDocumentState::new(uri.to_owned(), owner, language_id, version, text)
    }

    /// Handles `didOpen`: the URI becomes open, and the document is put in with its
    /// owning folder, its language (`unknown` if none is given), its version (0 if
    /// none is given), its text (empty if none is given) and no indexes yet.
    pub fn open_document(
        &mut self,
        uri: &str,
        language_id: Option<String>,
        version: Option<i64>,
        text: Option<String>,
    )
        requires
            old(self).wf(),
        ensures
            final(self).wf(),
            final(self).keeps_runtime_of(old(self)),
            final(self).open_uris() == old(self).open_uris().insert(uri@),
            final(self).folders() == old(self).folders(),
            ({
                let d = document_at(final(self).docs(), uri@)->0;
                &&& holds_document(final(self).docs(), uri@)
                &&& document_put(old(self).docs(), final(self).docs(), d)
                &&& resolves_owner(old(self).folders(), uri.spec_bytes(), d.workspace_folder_uri)
                &&& d.language_id@ == match language_id {
                    Some(l) => l@,
                    None => "unknown"@,
                }
                &&& d.version == match version {
                    Some(v) => v,
                    None => 0,
                }
                &&& d.text@ == match text {
                    Some(t) => t@,
                    None => Seq::<char>::empty(),
                }
                &&& d.style_summary is None
                &&& d.style_candidates@.len() == 0
                &&& d.source_selector_candidates@.len() == 0
                &&& d.source_syntax.is_empty()
            }),
    {
        self.open_document_uris.insert(uri);
        let language = match language_id {
            Some(l) => l,
            None => "unknown".to_owned(),
        };
        let text = match text {
            Some(t) => t,
            None => String::new(),
        };
        let version = match version {
            Some(v) => v,
            None => 0,
        };
        let doc = self.owned_document(uri, language, version, text);
        let ghost d = doc;
        put_document(&mut self.documents, doc);
        proof {
            self.lemma_put_found(d);
        }
    }

    /// After `doc` is put in, it is the document found by its URI.
    proof fn lemma_put_found(&self, doc: LspTextDocumentState)
        requires
            documents_sorted(self.documents@),
            exists|before: Seq<LspTextDocumentState>| document_put(before, self.documents@, doc),
        ensures
            holds_document(self.docs(), doc.uri@),
            document_at(self.docs(), doc.uri@) == Some(doc),
    {
        let before = choose|before: Seq<LspTextDocumentState>| document_put(before, self.documents@, doc);
        if holds_document(before, doc.uri@) {
            let i = choose|j: int| 0 <= j < before.len() && before[j].uri@ == doc.uri@;
            assert(0 <= i < before.len() && before[i].uri@ == doc.uri@);
            assert(self.documents@ == before.update(i, doc));
            assert(self.documents@[i] == doc);
            lemma_document_at(self.documents@, i);
        } else {
            let p = choose|p: int| 0 <= p <= before.len() && self.documents@ == before.insert(p, doc);
            assert(self.documents@[p] == doc);
            lemma_document_at(self.documents@, p);
        }
    }

    /// Stores the indexes derived from the text of the document with URI `uri`;
    /// returns whether the server holds that document.
    pub fn set_document_indexes(&mut self, uri: &str, indexes: DocumentIndexes) -> (res: bool)
        requires
            old(self).wf(),
        ensures
            final(self).wf(),
            final(self).keeps_runtime_of(old(self)),
            res == holds_document(old(self).docs(), uri@),
            final(self).open_uris() == old(self).open_uris(),
            final(self).folders() == old(self).folders(),
            res ==> forall|i: int|
                0 <= i < old(self).docs().len() && #[trigger] old(self).docs()[i].uri@ == uri@
                    ==> final(self).docs() == old(self).docs().update(
                    i,
                    (LspTextDocumentState {
                        style_summary: indexes.style_summary,
                        style_candidates: indexes.style_candidates,
                        source_selector_candidates: indexes.source_selector_candidates,
                        source_syntax: indexes.source_syntax,
                        ..old(self).docs()[i]
                    }),
                ),
            !res ==> final(self).docs() == old(self).docs(),
    {
        let ghost before = self.documents@;
        match document_position(&self.documents, uri) {
            Some(i) => {
                let mut doc = self.documents.remove(i);
                doc.style_summary = indexes.style_summary;
                doc.style_candidates = indexes.style_candidates;
                doc.source_selector_candidates = indexes.source_selector_candidates;
                doc.source_syntax = indexes.source_syntax;
                self.documents.insert(i, doc);
                proof {
                    assert(self.documents@ =~= before.update(i as int, self.documents@[i as int]));
                    lemma_document_at(before, i as int);
                    assert(documents_sorted(self.documents@)) by {
                        assert forall|a: int, b: int| 0 <= a < b < self.documents@.len() implies
                            crate::bytes::bytes_precede(
                            text_bytes(self.documents@[a].uri),
                            text_bytes(self.documents@[b].uri),
                        ) by {
                            assert(text_bytes(self.documents@[a].uri) == text_bytes(before[a].uri));
                            assert(text_bytes(self.documents@[b].uri) == text_bytes(before[b].uri));
                        }
                    }
                }
                true
            },
            None => false,
        }
    }

    /// Handles `didChange`: the document's version becomes `version` where one is
    /// given, then `changes` are applied to its text in order; returns whether the
    /// text changed. Nothing happens to a document the server does not hold.
    pub fn change_document(
        &mut self,
        uri: &str,
        version: Option<i64>,
        changes: Option<Vec<TextDocumentContentChange>>,
    ) -> (res: bool)
        requires
            old(self).wf(),
        ensures
            final(self).wf(),
            final(self).keeps_runtime_of(old(self)),
            final(self).open_uris() == old(self).open_uris(),
            final(self).folders() == old(self).folders(),
            !holds_document(old(self).docs(), uri@) ==> !res && final(self).docs() == old(
                self,
            ).docs(),
            forall|i: int|
                0 <= i < old(self).docs().len() && #[trigger] old(self).docs()[i].uri@ == uri@
                    ==> {
                    let d = old(self).docs()[i];
                    let n = final(self).docs()[i];
                    let outcome = match changes {
                        Some(list) => changes_applied(text_bytes(d.text), list@),
                        None => (text_bytes(d.text), false),
                    };
                    &&& final(self).docs() == old(self).docs().update(i, n)
                    &&& n == (LspTextDocumentState {
                        version: match version {
                            Some(v) => v,
                            None => d.version,
                        },
                        text: n.text,
                        ..d
                    })
                    &&& text_bytes(n.text) == outcome.0
                    &&& res == outcome.1
                },
    {
        let ghost before = self.documents@;
        let i = match document_position(&self.documents, uri) {
            Some(i) => i,
            None => return false,
        };
        proof {
            lemma_document_at(before, i as int);
        }
        let mut doc = self.documents.remove(i);
        if let Some(v) = version {
            doc.version = v;
        }
        let mut text_changed = false;
        if let Some(list) = changes {
            let mut j: usize = 0;
            while j < list.len()
                invariant
                    j <= list@.len(),
                    (text_bytes(doc.text), text_changed) == changes_applied(
                        text_bytes(before[i as int].text),
                        list@.subrange(0, j as int),
                    ),
                    doc.uri == before[i as int].uri,
                    doc.workspace_folder_uri == before[i as int].workspace_folder_uri,
                    doc.language_id == before[i as int].language_id,
                    doc.version == match version {
                        Some(v) => v,
                        None => before[i as int].version,
                    },
                    doc.style_summary == before[i as int].style_summary,
                    doc.style_candidates == before[i as int].style_candidates,
                    doc.source_selector_candidates == before[i as int].source_selector_candidates,
                    doc.source_syntax == before[i as int].source_syntax,
                decreases list@.len() - j,
            {
                let ghost prefix = list@.subrange(0, j + 1);
                assert(prefix.drop_last() =~= list@.subrange(0, j as int));
                assert(prefix.last() == list@[j as int]);
                let change = &list[j];
                if let Some(next) = &change.text {
                    match change.range {
                        None => {
                            doc.text = next.clone();
                            text_changed = true;
                        },
                        Some(range) => {
                            match apply_text_document_content_change(doc.text.as_str(), range, next.as_str()) {
                                Some(updated) => {
                                    doc.text = updated;
                                    text_changed = true;
                                },
                                None => {},
                            }
                        },
                    }
                }
                j = j + 1;
            }
            assert(list@.subrange(0, list@.len() as int) =~= list@);
        }
        self.documents.insert(i, doc);
        proof {
            assert(self.documents@ =~= before.update(i as int, self.documents@[i as int]));
            assert(documents_sorted(self.documents@)) by {
                assert forall|a: int, b: int| 0 <= a < b < self.documents@.len() implies
                    crate::bytes::bytes_precede(
                    text_bytes(self.documents@[a].uri),
                    text_bytes(self.documents@[b].uri),
                ) by {
                    assert(text_bytes(self.documents@[a].uri) == text_bytes(before[a].uri));
                    assert(text_bytes(self.documents@[b].uri) == text_bytes(before[b].uri));
                }
            }
        }
        text_changed
    }

    /// Puts in a document freshly read from disk, at version 0, owned by the folder
    /// that claims it; an open document with that URI is replaced too.
    pub fn reload_document(&mut self, uri: &str, language_id: String, text: String)
        requires
            old(self).wf(),
        ensures
            final(self).wf(),
            final(self).keeps_runtime_of(old(self)),
            final(self).open_uris() == old(self).open_uris(),
            final(self).folders() == old(self).folders(),
            ({
                let d = document_at(final(self).docs(), uri@)->0;
                &&& holds_document(final(self).docs(), uri@)
                &&& document_put(old(self).docs(), final(self).docs(), d)
                &&& resolves_owner(old(self).folders(), uri.spec_bytes(), d.workspace_folder_uri)
                &&& d.language_id == language_id
                &&& d.version == 0
                &&& d.text == text
                &&& d.style_summary is None
                &&& d.style_candidates@.len() == 0
                &&& d.source_selector_candidates@.len() == 0
                &&& d.source_syntax.is_empty()
            }),
    {
        let doc = self.owned_document(uri, language_id, 0, text);
        let ghost d = doc;
        put_document(&mut self.documents, doc);
        proof {
            self.lemma_put_found(d);
        }
    }

    /// Handles `didClose`: the URI is no longer open. A style document read back
    /// from disk (`reloaded`, with its language and text) stays indexed at version 0;
    /// otherwise the document is dropped.
    pub fn close_document(&mut self, uri: &str, reloaded: Option<(String, String)>)
        requires
            old(self).wf(),
        ensures
            final(self).wf(),
            final(self).keeps_runtime_of(old(self)),
            final(self).open_uris() == old(self).open_uris().remove(uri@),
            final(self).folders() == old(self).folders(),
            match reloaded {
                Some((language_id, text)) => {
                    let d = document_at(final(self).docs(), uri@)->0;
                    &&& holds_document(final(self).docs(), uri@)
                    &&& document_put(old(self).docs(), final(self).docs(), d)
                    &&& resolves_owner(old(self).folders(), uri.spec_bytes(), d.workspace_folder_uri)
                    &&& d.language_id == language_id
                    &&& d.version == 0
                    &&& d.text == text
                },
                None => document_dropped(old(self).docs(), final(self).docs(), uri@) && document_at(
                    final(self).docs(),
                    uri@,
                ) is None,
            },
    {
        self.open_document_uris.remove(uri);
        match reloaded {
            Some((language_id, text)) => {
                self.reload_document(uri, language_id, text);
            },
            None => {
                let ghost before = self.documents@;
                drop_document(&mut self.documents, uri);
                proof {
                    lemma_dropped_document_is_gone(before, self.documents@, uri@);
                }
            },
        }
    }

    /// Indexes a style file found on disk under workspace folder
    /// `workspace_folder_uri`, at version 0, unless the server already holds a
    /// document with that URI; returns whether it was added.
    pub fn index_style_document(
        &mut self,
        uri: &str,
        workspace_folder_uri: &str,
        language_id: String,
        text: String,
    ) -> (res: bool)
        requires
            old(self).wf(),
        ensures
            final(self).wf(),
            final(self).keeps_runtime_of(old(self)),
            final(self).open_uris() == old(self).open_uris(),
            final(self).folders() == old(self).folders(),
            res == !holds_document(old(self).docs(), uri@),
            !res ==> final(self).docs() == old(self).docs(),
            res ==> ({
                let d = document_at(final(self).docs(), uri@)->0;
                &&& holds_document(final(self).docs(), uri@)
                &&& document_put(old(self).docs(), final(self).docs(), d)
                &&& d.workspace_folder_uri matches Some(w) && w@ == workspace_folder_uri@
                &&& d.language_id == language_id
                &&& d.version == 0
                &&& d.text == text
                &&& d.style_summary is None
                &&& d.style_candidates@.len() == 0
                &&& d.source_selector_candidates@.len() == 0
                &&& d.source_syntax.is_empty()
            }),
    {
        if document_position(&self.documents, uri).is_some() {
            return false;
        }
        let doc = LspTextDocumentState::new(
            uri.to_owned(),
            Some(workspace_folder_uri.to_owned()),
            language_id,
            0,
            text,
        );
        let ghost d = doc;
        put_document(&mut self.documents, doc);
        proof {
            self.lemma_put_found(d);
        }
        true
    }

    /// Counts a workspace indexing run that ran out of budget.
    pub fn record_workspace_style_index_exhausted(&mut self)
        requires
            old(self).wf(),
            old(self).index_exhaustions() < usize::MAX,
        ensures
            final(self).wf(),
            final(self).shutdown_flag() == old(self).shutdown_flag(),
            final(self).exit_flag() == old(self).exit_flag(),
            final(self).feature_settings() == old(self).feature_settings(),
            final(self).diagnostic_settings() == old(self).diagnostic_settings(),
            final(self).configuration_changes() == old(self).configuration_changes(),
            final(self).watched_changes() == old(self).watched_changes(),
            final(self).index_exhaustions() == old(self).index_exhaustions() + 1,
            final(self).docs() == old(self).docs(),
            final(self).open_uris() == old(self).open_uris(),
            final(self).folders() == old(self).folders(),
    {
        self.workspace_style_index_exhausted_count = self.workspace_style_index_exhausted_count + 1;
    }

    /// Handles the removal of a workspace folder: the folder is forgotten, and every
    /// document it owned that is not open is dropped, the rest keeping their order.
    pub fn remove_workspace_folder(&mut self, uri: &str)
        requires
            old(self).wf(),
        ensures
            final(self).wf(),
            final(self).keeps_runtime_of(old(self)),
            final(self).folders().len() == folder_names(final(self).folders()).dom().len(),
            folder_names(final(self).folders()) == folder_names(old(self).folders()).remove(uri@),
            final(self).docs() == documents_surviving(old(self).docs(), old(self).open_uris(), uri@),
            final(self).open_uris() == old(self).open_uris(),
    {
        let ghost before_folders = self.folders();
        proof {
            self.workspace_runtime_registry.lemma_sorted();
        }
        self.workspace_runtime_registry.remove(uri);
        proof {
            law_folder_names_after_remove(before_folders, self.folders(), uri@);
        }
        let ghost before = self.documents@;
        let ghost open = self.open_uris();
        let mut pending: Vec<LspTextDocumentState> = Vec::new();
        std::mem::swap(&mut pending, &mut self.documents);
        let mut kept: Vec<LspTextDocumentState> = Vec::new();
        let ghost mut i: int = 0;
        assert(pending@ =~= before.subrange(0, before.len() as int));
        while pending.len() > 0
            invariant
                documents_sorted(before),
                self.open_document_uris.wf(),
                self.workspace_runtime_registry.wf(),
                self.open_uris() == open,
                0 <= i <= before.len(),
                pending@ == before.subrange(i, before.len() as int),
                kept@ == documents_surviving(before.subrange(0, i), open, uri@),
                documents_sorted(kept@),
                forall|a: int|
                    0 <= a < kept@.len() ==> exists|b: int| 0 <= b < i && #[trigger] kept@[a] == before[b],
            decreases pending@.len(),
        {
            let doc = pending.remove(0);
            proof {
                assert(doc == before[i]);
                let prefix = before.subrange(0, i + 1);
                assert(prefix.drop_last() =~= before.subrange(0, i));
                assert(prefix.last() == before[i]);
            }
            let keep = self.open_document_uris.contains(doc.uri.as_str()) || match &doc.workspace_folder_uri {
                Some(w) => !crate::text::str_equal(w.as_str(), uri),
                None => true,
            };
            if keep {
                let ghost kept_before = kept@;
                kept.push(doc);
                proof {
                    assert forall|x: int, y: int| 0 <= x < y < kept@.len() implies crate::bytes::bytes_precede(
                        text_bytes(kept@[x].uri),
                        text_bytes(kept@[y].uri),
                    ) by {
                        if y == kept@.len() - 1 {
                            assert(kept@[x] == kept_before[x]);
                            let b = choose|b: int| 0 <= b < i && kept_before[x] == before[b];
                            assert(kept@[y] == before[i]);
                        } else {
                            assert(kept@[x] == kept_before[x]);
                            assert(kept@[y] == kept_before[y]);
                        }
                    }
                    assert forall|a: int| 0 <= a < kept@.len() implies exists|b: int|
                        0 <= b < i + 1 && #[trigger] kept@[a] == before[b] by {
                        if a == kept@.len() - 1 {
                            assert(kept@[a] == before[i]);
                        } else {
                            assert(kept@[a] == kept_before[a]);
                            let b = choose|b: int| 0 <= b < i && kept_before[a] == before[b];
                            assert(kept@[a] == before[b]);
                        }
                    }
                }
            }
            proof {
                i = i + 1;
                assert(pending@ =~= before.subrange(i, before.len() as int));
            }
        }
        proof {
            assert(before.subrange(0, i) =~= before);
        }
        self.documents = kept;
        proof {
            self.lemma_wf();
        }
    }

    /// Registers a workspace folder the client added; one without a URI is ignored,
    /// one without a name is named by its URI.
    pub fn add_workspace_folder(&mut self, folder: &WorkspaceFolderParam)
        requires
            old(self).wf(),
        ensures
            final(self).wf(),
            final(self).keeps_runtime_of(old(self)),
            final(self).folders().len() == folder_names(final(self).folders()).dom().len(),
            folder_names(final(self).folders()) == match folder.uri {
                Some(u) => folder_names(old(self).folders()).insert(
                    u@,
                    match folder.name {
                        Some(n) => n@,
                        None => u@,
                    },
                ),
                None => folder_names(old(self).folders()),
            },
            final(self).docs() == old(self).docs(),
            final(self).open_uris() == old(self).open_uris(),
    {
        if let Some(uri) = &folder.uri {
            let ghost before = self.folders();
            proof {
                self.workspace_runtime_registry.lemma_sorted();
            }
            let name: &str = match &folder.name {
                Some(n) => n.as_str(),
                None => uri.as_str(),
            };
            self.workspace_runtime_registry.insert(uri.as_str(), name);
            proof {
                law_folder_names_after_insert(before, self.folders(), uri@, name@);
            }
        }
        proof {
            self.lemma_wf();
        }
    }

    /// Gives every document the workspace folder that now owns it; nothing else
    /// about the documents changes.
    pub fn refresh_document_workspace_owners(&mut self)
        requires
            old(self).wf(),
        ensures
            final(self).wf(),
            final(self).keeps_runtime_of(old(self)),
            final(self).folders() == old(self).folders(),
            final(self).open_uris() == old(self).open_uris(),
            final(self).docs().len() == old(self).docs().len(),
            forall|i: int|
                0 <= i < old(self).docs().len() ==> {
                    let d = old(self).docs()[i];
                    let n = #[trigger] final(self).docs()[i];
                    &&& n == (LspTextDocumentState { workspace_folder_uri: n.workspace_folder_uri, ..d })
                    &&& resolves_owner(old(self).folders(), text_bytes(d.uri), n.workspace_folder_uri)
                },
    {
        let ghost before = self.documents@;
        let mut i: usize = 0;
        while i < self.documents.len()
            invariant
                self.wf(),
                self.folders() == old(self).folders(),
                self.open_uris() == old(self).open_uris(),
                self.keeps_runtime_of(old(self)),
                before == old(self).docs(),
                self.documents@.len() == before.len(),
                i <= before.len(),
                forall|j: int|
                    0 <= j < before.len() ==> text_bytes((#[trigger] self.documents@[j]).uri)
                        == text_bytes(before[j].uri),
                forall|j: int|
                    i <= j < before.len() ==> #[trigger] self.documents@[j] == before[j],
                forall|j: int|
                    0 <= j < i ==> {
                        let d = before[j];
                        let n = #[trigger] self.documents@[j];
                        &&& n == (LspTextDocumentState { workspace_folder_uri: n.workspace_folder_uri, ..d })
                        &&& resolves_owner(self.folders(), text_bytes(d.uri), n.workspace_folder_uri)
                    },
            decreases before.len() - i,
        {
            let ghost current = self.documents@;
            let mut doc = self.documents.remove(i);
            let owner = self.workspace_runtime_registry.resolve_owner_uri(doc.uri.as_str());
            doc.workspace_folder_uri = owner;
            self.documents.insert(i, doc);
            proof {
                assert(self.documents@ =~= current.update(i as int, self.documents@[i as int]));
                assert forall|a: int, b: int| 0 <= a < b < self.documents@.len() implies
                    crate::bytes::bytes_precede(
                    text_bytes(self.documents@[a].uri),
                    text_bytes(self.documents@[b].uri),
                ) by {
                    assert(text_bytes(self.documents@[a].uri) == text_bytes(current[a].uri));
                    assert(text_bytes(self.documents@[b].uri) == text_bytes(current[b].uri));
                }
            }
            i = i + 1;
        }
    }

    /// Handles a configuration change: it is counted, and where the change carries
    /// settings for this server, its feature switches and severity are applied.
    pub fn change_configuration(&mut self, settings: Option<ConfigurationSettings>)
        requires
            old(self).wf(),
            old(self).configuration_changes() < usize::MAX,
        ensures
            final(self).wf(),
            final(self).shutdown_flag() == old(self).shutdown_flag(),
            final(self).exit_flag() == old(self).exit_flag(),
            final(self).index_exhaustions() == old(self).index_exhaustions(),
            final(self).watched_changes() == old(self).watched_changes(),
            final(self).configuration_changes() == old(self).configuration_changes() + 1,
            final(self).feature_settings() == match settings {
                Some(s) => features_toggled(old(self).feature_settings(), s.features),
                None => old(self).feature_settings(),
            },
            final(self).diagnostic_settings().severity == match settings {
                Some(s) => match s.severity {
                    Some(name) => match severity_code_of(name@) {
                        Some(code) => code,
                        None => old(self).diagnostic_settings().severity,
                    },
                    None => old(self).diagnostic_settings().severity,
                },
                None => old(self).diagnostic_settings().severity,
            },
            final(self).docs() == old(self).docs(),
            final(self).open_uris() == old(self).open_uris(),
            final(self).folders() == old(self).folders(),
    {
        self.configuration_change_count = self.configuration_change_count + 1;
        if let Some(s) = settings {
            self.features.apply(s.features);
            match &s.severity {
                Some(name) => self.diagnostics.apply(Some(name.as_str())),
                None => self.diagnostics.apply(None),
            }
        }
    }

    /// Handles one reported file change: it is recorded; for a style file that is
    /// not open, a deletion (change type 3) drops the indexed document. Returns
    /// whether the file should be read back from disk, which is so for any other
    /// change to a style file that is not open.
    pub fn apply_watched_file_change(&mut self, uri: &str, change_type: u64, is_style: bool) -> (res:
        bool)
        requires
            old(self).wf(),
        ensures
            final(self).wf(),
            final(self).shutdown_flag() == old(self).shutdown_flag(),
            final(self).exit_flag() == old(self).exit_flag(),
            final(self).feature_settings() == old(self).feature_settings(),
            final(self).diagnostic_settings() == old(self).diagnostic_settings(),
            final(self).configuration_changes() == old(self).configuration_changes(),
            final(self).index_exhaustions() == old(self).index_exhaustions(),
            final(self).watched_changes().len() == old(self).watched_changes().len() + 1,
            final(self).watched_changes().drop_last() == old(self).watched_changes(),
            final(self).watched_changes().last().uri@ == uri@,
            final(self).watched_changes().last().change_type == change_type,
            res == (is_style && !old(self).open_uris().contains(uri@) && change_type != 3),
            if is_style && !old(self).open_uris().contains(uri@) && change_type == 3 {
                document_dropped(old(self).docs(), final(self).docs(), uri@) && document_at(
                    final(self).docs(),
                    uri@,
                ) is None
            } else {
                final(self).docs() == old(self).docs()
            },
            final(self).open_uris() == old(self).open_uris(),
            final(self).folders() == old(self).folders(),
    {
        self.watched_file_changes.push(LspWatchedFileChangeState { uri: uri.to_owned(), change_type });
        proof {
            assert(self.watched_file_changes@.drop_last() =~= old(self).watched_changes());
        }
        if !is_style {
            return false;
        }
        if self.open_document_uris.contains(uri) {
            return false;
        }
        if change_type == 3 {
            let ghost before = self.documents@;
            drop_document(&mut self.documents, uri);
            proof {
                lemma_dropped_document_is_gone(before, self.documents@, uri@);
            }
            return false;
        }
        true
    }

    /// The open URIs, in order, that name a document the server holds: the
    /// documents whose diagnostics are refreshed after a configuration change or
    /// workspace indexing.
    pub fn open_document_uris_for_diagnostics(&self) -> (res: Vec<String>)
        requires
            self.wf(),
        ensures
            crate::uri_set::strings_sorted(res@),
            forall|u: Seq<char>|
                crate::uri_set::members(res@).contains(u) <==> (self.open_uris().contains(u)
                    && holds_document(self.docs(), u)),
    {
        let open = self.open_document_uris.as_slice();
        let ghost o = open@;
        let mut res: Vec<String> = Vec::new();
        let mut i: usize = 0;
        while i < open.len()
            invariant
                o == open@,
                self.wf(),
                crate::uri_set::strings_sorted(o),
                crate::uri_set::members(o) == self.open_uris(),
                i <= o.len(),
                crate::uri_set::strings_sorted(res@),
                forall|a: int| 0 <= a < res@.len() ==> exists|b: int| 0 <= b < i && #[trigger] res@[a] == o[b],
                forall|u: Seq<char>|
                    crate::uri_set::members(res@).contains(u) <==> (exists|b: int|
                        0 <= b < i && o[b]@ == u) && holds_document(self.docs(), u),
            decreases o.len() - i,
        {
            let uri = &open[i];
            let held = document_position(&self.documents, uri.as_str()).is_some();
            let ghost before = res@;
            if held {
                res.push(uri.clone());
                proof {
                    assert forall|x: int, y: int| 0 <= x < y < res@.len() implies crate::bytes::bytes_precede(
                        text_bytes(res@[x]),
                        text_bytes(res@[y]),
                    ) by {
                        assert(res@[x] == before[x]);
                        if y == res@.len() - 1 {
                            let b = choose|b: int| 0 <= b < i && before[x] == o[b];
                            assert(res@[y] == o[i as int]);
                        } else {
                            assert(res@[y] == before[y]);
                        }
                    }
                    assert forall|a: int| 0 <= a < res@.len() implies exists|b: int|
                        0 <= b < i + 1 && #[trigger] res@[a] == o[b] by {
                        if a == res@.len() - 1 {
                            assert(res@[a] == o[i as int]);
                        } else {
                            assert(res@[a] == before[a]);
                            let b = choose|b: int| 0 <= b < i && before[a] == o[b];
                            assert(res@[a] == o[b]);
                        }
                    }
                }
            }
            proof {
                assert forall|u: Seq<char>|
                    crate::uri_set::members(res@).contains(u) <==> (exists|b: int|
                        0 <= b < i + 1 && o[b]@ == u) && holds_document(self.docs(), u) by {
                    if crate::uri_set::members(res@).contains(u) {
                        let a = choose|a: int| 0 <= a < res@.len() && res@[a]@ == u;
                        if a < before.len() {
                            assert(res@[a] == before[a]);
                            assert(crate::uri_set::members(before).contains(u));
                            let b = choose|b: int| 0 <= b < i && o[b]@ == u;
                            assert(0 <= b < i + 1 && o[b]@ == u);
                        } else {
                            assert(res@[a] == o[i as int]);
                            assert(o[i as int]@ == u);
                        }
                    }
                    if (exists|b: int| 0 <= b < i + 1 && o[b]@ == u) && holds_document(self.docs(), u) {
                        let b = choose|b: int| 0 <= b < i + 1 && o[b]@ == u;
                        if b < i {
                            assert(crate::uri_set::members(before).contains(u));
                            let a = choose|a: int| 0 <= a < before.len() && before[a]@ == u;
                            assert(res@[a] == before[a]);
                        } else {
                            assert(res@[res@.len() - 1] == o[i as int]);
                        }
                    }
                }
            }
            i = i + 1;
        }
        proof {
            assert forall|u: Seq<char>| (exists|b: int| 0 <= b < o.len() && o[b]@ == u) == self.open_uris().contains(u) by {
                assert(crate::uri_set::members(o).contains(u) == (exists|b: int| 0 <= b < o.len() && o[b]@ == u));
            }
        }
        res
    }
}

} // verus!
