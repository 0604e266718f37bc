use vstd::prelude::*;
use vstd::string::StringSliceAdditionalSpecFns;
use vstd::utf8::encode_utf8;

use crate::documents::{
    document_at, document_dropped, documents_sorted, lemma_dropped_document_is_gone,
    LspTextDocumentState,
};
use crate::scheduler::{schedule_event_for, DiagnosticsScheduleEvent};
use crate::registry::{is_owner, resolves_owner, LspWorkspaceFolderState};
use crate::shell::{folder_compatible, workspace_folder_compatible, LspShellState};

verus! {

/// What a diagnostics notification publishes for a document.
#[derive(Debug, Clone, Copy, PartialEq, Eq, Structural)]
pub enum DiagnosticsContent {
    /// No diagnostics: the document was closed.
    Cleared,
    /// The document's diagnostics, by its language.
    Document,
    /// The diagnostics of a source document.
    Source,
}

/// A diagnostics notification to publish.
#[derive(Debug, Clone, PartialEq, Eq)]
pub struct DiagnosticsPublication {
    pub uri: String,
    pub content: DiagnosticsContent,
}

/// A notification as values: URI and content.
pub open spec fn publication_view(p: DiagnosticsPublication) -> (Seq<char>, DiagnosticsContent) {
    (p.uri@, p.content)
}

/// The notifications as values.
pub open spec fn publications_view(ps: Seq<DiagnosticsPublication>) -> Seq<(Seq<char>, DiagnosticsContent)> {
    ps.map_values(|p: DiagnosticsPublication| publication_view(p))
}

/// The view of an optional string.
pub open spec fn opt_view(s: Option<String>) -> Option<Seq<char>> {
    match s {
        Some(t) => Some(t@),
        None => None,
    }
}

/// The URI of the folder that owns a document, if one does.
pub open spec fn owner_uri_of(folders: Seq<LspWorkspaceFolderState>, doc: Seq<u8>) -> Option<Seq<char>> {
    if exists|i: int| is_owner(folders, doc, i) {
        Some(folders[choose|i: int| is_owner(folders, doc, i)].uri@)
    } else {
        None
    }
}

/// At most one folder owns a document, so the owner found is `owner_uri_of`.
pub proof fn lemma_owner_uri_of(folders: Seq<LspWorkspaceFolderState>, doc: Seq<u8>, res: Option<String>)
    requires
        resolves_owner(folders, doc, res),
    ensures
        opt_view(res) == owner_uri_of(folders, doc),
{
    match res {
        Some(owner) => {
            let i = choose|i: int| is_owner(folders, doc, i) && folders[i].uri == owner;
            let j = choose|j: int| is_owner(folders, doc, j);
            assert(is_owner(folders, doc, i));
            if i < j {
                assert(!is_owner(folders, doc, j));
            } else if j < i {
                assert(!is_owner(folders, doc, i));
            }
        },
        None => {
            assert forall|i: int| !is_owner(folders, doc, i) by {
                if 0 <= i < folders.len() {
                    assert(crate::registry::owner_score(
                        crate::registry::text_bytes(folders[i].uri),
                        doc,
                    ) is None);
                }
            }
        },
    }
}

/// The documents numbered below `n` that `refreshed` selects, in order, each to be
/// published with its source diagnostics.
pub open spec fn sources_upto(
    docs: Seq<LspTextDocumentState>,
    refreshed: spec_fn(int) -> bool,
    n: int,
) -> Seq<(Seq<char>, DiagnosticsContent)>
    decreases n,
{
    if n <= 0 {
        Seq::empty()
    } else if refreshed(n - 1) {
        sources_upto(docs, refreshed, n - 1).push((docs[n - 1].uri@, DiagnosticsContent::Source))
    } else {
        sources_upto(docs, refreshed, n - 1)
    }
}

/// Whether a change to the text of the style document `style_uri` refreshes
/// document `k`: a source document of a folder compatible with the style
/// document's, or any source document where the server does not hold the style
/// document.
pub open spec fn text_change_refreshes(
    docs: Seq<LspTextDocumentState>,
    doc_is_style: Seq<bool>,
    style_uri: Seq<char>,
    k: int,
) -> bool {
    !doc_is_style[k] && match document_at(docs, style_uri) {
        Some(style_doc) => folder_compatible(opt_view(style_doc.workspace_folder_uri), docs[k]),
        None => true,
    }
}

/// The workspace folder of a style document whose file changed: the one the
/// server holds it under, else the folder that owns its URI.
pub open spec fn style_workspace(
    docs: Seq<LspTextDocumentState>,
    folders: Seq<LspWorkspaceFolderState>,
    style_uri: Seq<char>,
) -> Option<Seq<char>> {
    match document_at(docs, style_uri) {
        Some(d) if d.workspace_folder_uri is Some => opt_view(d.workspace_folder_uri),
        _ => owner_uri_of(folders, encode_utf8(style_uri)),
    }
}

/// Whether a changed file of the style document `style_uri` refreshes document
/// `k`: a source document of a folder compatible with the style document's
/// workspace folder, or any source document where it has none.
pub open spec fn file_change_refreshes(
    docs: Seq<LspTextDocumentState>,
    folders: Seq<LspWorkspaceFolderState>,
    doc_is_style: Seq<bool>,
    style_uri: Seq<char>,
    k: int,
) -> bool {
    !doc_is_style[k] && match style_workspace(docs, folders, style_uri) {
        Some(w) => folder_compatible(Some(w), docs[k]),
        None => true,
    }
}

/// The changed style documents among `uris`, each to be published with its
/// diagnostics, in order.
pub open spec fn changed_style_documents(uris: Seq<String>, uri_is_style: Seq<bool>) -> Seq<
    (Seq<char>, DiagnosticsContent),
>
    decreases uris.len(),
{
    if uris.len() == 0 {
        Seq::empty()
    } else if uri_is_style[uris.len() - 1] {
        changed_style_documents(uris.drop_last(), uri_is_style).push(
            (uris.last()@, DiagnosticsContent::Document),
        )
    } else {
        changed_style_documents(uris.drop_last(), uri_is_style)
    }
}

fn push_sources(
    docs: &[LspTextDocumentState],
    refreshed: &Vec<bool>,
    out: &mut Vec<DiagnosticsPublication>,
    Ghost(pred): Ghost<spec_fn(int) -> bool>,
)
    requires
        refreshed@.len() == docs@.len(),
        forall|k: int| 0 <= k < docs@.len() ==> refreshed@[k] == pred(k),
    ensures
        publications_view(final(out)@) == publications_view(old(out)@) + sources_upto(
            docs@,
            pred,
            docs@.len() as int,
        ),
{
    let ghost start = publications_view(out@);
    let mut k: usize = 0;
    assert(start + Seq::<(Seq<char>, DiagnosticsContent)>::empty() =~= start);
    while k < docs.len()
        invariant
            k <= docs@.len(),
            refreshed@.len() == docs@.len(),
            forall|j: int| 0 <= j < docs@.len() ==> refreshed@[j] == pred(j),
            publications_view(out@) == start + sources_upto(docs@, pred, k as int),
        decreases docs@.len() - k,
    {
        if refreshed[k] {
            let p = DiagnosticsPublication { uri: docs[k].uri.clone(), content: DiagnosticsContent::Source };
            let ghost before = out@;
            out.push(p);
            proof {
                assert(publications_view(out@) =~= publications_view(before).push(publication_view(p)));
            }
        }
        k = k + 1;
    }
}

/// The notifications for a text-document event on `uri` (see
/// `diagnostics_for_text_document_event`).
pub open spec fn text_event_publications(
    docs: Seq<LspTextDocumentState>,
    doc_is_style: Seq<bool>,
    uri: Seq<char>,
    is_close: bool,
    uri_is_style: bool,
) -> Seq<(Seq<char>, DiagnosticsContent)> {
    seq![
        (uri, if is_close {
            DiagnosticsContent::Cleared
        } else {
            DiagnosticsContent::Document
        }),
    ] + if uri_is_style {
        sources_upto(
            docs,
            |k: int| text_change_refreshes(docs, doc_is_style, uri, k),
            docs.len() as int,
        )
    } else {
        Seq::empty()
    }
}

/// Law: closing a document schedules a close event for it; the server no longer
/// holds it once dropped; and the first notification clears its diagnostics, the
/// only one where it is not a style document.
pub proof fn law_closed_document_is_cleared(
    uri: String,
    watched_file_uris: Vec<String>,
    before: Seq<LspTextDocumentState>,
    after: Seq<LspTextDocumentState>,
    doc_is_style: Seq<bool>,
    uri_is_style: bool,
)
    requires
        documents_sorted(before),
        document_dropped(before, after, uri@),
    ensures
        schedule_event_for(Some("textDocument/didClose"@), Some(uri), watched_file_uris) == Some(
            DiagnosticsScheduleEvent::TextDocument { uri, is_close: true },
        ),
        document_at(after, uri@) is None,
        text_event_publications(after, doc_is_style, uri@, true, uri_is_style)[0] == (
            uri@,
            DiagnosticsContent::Cleared,
        ),
        !uri_is_style ==> text_event_publications(after, doc_is_style, uri@, true, uri_is_style)
            == seq![(uri@, DiagnosticsContent::Cleared)],
{
    lemma_dropped_document_is_gone(before, after, uri@);
    assert(seq![(uri@, DiagnosticsContent::Cleared)] + Seq::<(Seq<char>, DiagnosticsContent)>::empty()
        =~= seq![(uri@, DiagnosticsContent::Cleared)]);
}

/// The diagnostics to publish after a text document was opened, changed or
/// (`is_close`) closed: its own (none once closed), then, where it is a style
/// document, those of every source document it may affect, in URI order.
/// `uri_is_style` tells whether `uri` names a style document, and `doc_is_style`
/// the same of each document the server holds, in order.
pub fn diagnostics_for_text_document_event(
    state: &LspShellState,
    uri: &str,
    is_close: bool,
    uri_is_style: bool,
    doc_is_style: &[bool],
) -> (res: Vec<DiagnosticsPublication>)
    requires
        state.wf(),
        doc_is_style@.len() == state.docs().len(),
    ensures
        publications_view(res@) == text_event_publications(
            state.docs(),
            doc_is_style@,
            uri@,
            is_close,
            uri_is_style,
        ),
{
    let first = DiagnosticsPublication {
        uri: uri.to_owned(),
        content: if is_close {
            DiagnosticsContent::Cleared
        } else {
            DiagnosticsContent::Document
        },
    };
    let mut out: Vec<DiagnosticsPublication> = Vec::new();
    out.push(first);
    assert(publications_view(out@) =~= seq![publication_view(first)]);
    if !uri_is_style {
        assert(publications_view(out@) + Seq::empty() =~= publications_view(out@));
        return out;
    }
    let docs = state.documents();
    let style_doc = state.document(uri);
    let ghost pred = |k: int| text_change_refreshes(state.docs(), doc_is_style@, uri@, k);
    let mut refreshed: Vec<bool> = Vec::new();
    let mut k: usize = 0;
    while k < docs.len()
        invariant
            k <= docs@.len(),
            docs@ == state.docs(),
            doc_is_style@.len() == docs@.len(),
            refreshed@.len() == k,
            match style_doc {
                Some(d) => document_at(state.docs(), uri@) == Some(*d),
                None => document_at(state.docs(), uri@) is None,
            },
            pred == (|k: int| text_change_refreshes(state.docs(), doc_is_style@, uri@, k)),
            forall|j: int| 0 <= j < k ==> refreshed@[j] == pred(j),
        decreases docs@.len() - k,
    {
        let compatible = match style_doc {
            Some(d) => workspace_folder_compatible(
                match &d.workspace_folder_uri {
                    Some(w) => Some(w.as_str()),
                    None => None,
                },
                &docs[k],
            ),
            None => true,
        };
        refreshed.push(!doc_is_style[k] && compatible);
        k = k + 1;
    }
    push_sources(docs, &refreshed, &mut out, Ghost(pred));
    out
}

/// The notifications for files changed on disk (see
/// `diagnostics_for_watched_files`).
pub open spec fn watched_publications(
    docs: Seq<LspTextDocumentState>,
    folders: Seq<LspWorkspaceFolderState>,
    uris: Seq<String>,
    uri_is_style: Seq<bool>,
    doc_is_style: Seq<bool>,
) -> Seq<(Seq<char>, DiagnosticsContent)> {
    changed_style_documents(uris, uri_is_style) + sources_upto(
        docs,
        |k: int|
            exists|i: int|
                0 <= i < uris.len() && uri_is_style[i] && #[trigger] file_change_refreshes(
                    docs,
                    folders,
                    doc_is_style,
                    uris[i]@,
                    k,
                ),
        docs.len() as int,
    )
}

/// The diagnostics to publish after files changed on disk: those of each changed
/// style document, in the order given, then those of every source document that
/// one of them may affect, in URI order, each once. `uri_is_style` tells whether
/// each of `uris` names a style document, and `doc_is_style` the same of each
/// document the server holds, in order.
pub fn diagnostics_for_watched_files(
    state: &LspShellState,
    uris: &[String],
    uri_is_style: &[bool],
    doc_is_style: &[bool],
) -> (res: Vec<DiagnosticsPublication>)
    requires
        state.wf(),
        uri_is_style@.len() == uris@.len(),
        doc_is_style@.len() == state.docs().len(),
    ensures
        publications_view(res@) == watched_publications(
            state.docs(),
            state.folders(),
            uris@,
            uri_is_style@,
            doc_is_style@,
        ),
{
    let mut out: Vec<DiagnosticsPublication> = Vec::new();
    let mut workspaces: Vec<Option<String>> = Vec::new();
    let mut i: usize = 0;
    assert(uris@.subrange(0, 0) =~= Seq::<String>::empty());
    assert(publications_view(out@) =~= Seq::<(Seq<char>, DiagnosticsContent)>::empty());
    while i < uris.len()
        invariant
            i <= uris@.len(),
            uri_is_style@.len() == uris@.len(),
            state.wf(),
            workspaces@.len() == i,
            forall|j: int|
                0 <= j < i && uri_is_style@[j] ==> opt_view(#[trigger] workspaces@[j]) == style_workspace(
                    state.docs(),
                    state.folders(),
                    uris@[j]@,
                ),
            publications_view(out@) == changed_style_documents(
                uris@.subrange(0, i as int),
                uri_is_style@,
            ),
        decreases uris@.len() - i,
    {
        let ghost prefix = uris@.subrange(0, i + 1);
        proof {
            assert(prefix.drop_last() =~= uris@.subrange(0, i as int));
            assert(prefix.last() == uris@[i as int]);
        }
        if uri_is_style[i] {
            let uri = uris[i].as_str();
            let p = DiagnosticsPublication { uri: uri.to_owned(), content: DiagnosticsContent::Document };
            let ghost before = out@;
            out.push(p);
            proof {
                assert(publications_view(out@) =~= publications_view(before).push(publication_view(p)));
            }
            let held = match state.document(uri) {
                Some(d) => match &d.workspace_folder_uri {
                    Some(w) => Some(w.clone()),
                    None => None,
                },
                None => None,
            };
            let workspace = match held {
                Some(w) => Some(w),
                None => {
                    let owner = state.resolve_workspace_folder_uri(uri);
                    proof {
                        lemma_owner_uri_of(state.folders(), uri.spec_bytes(), owner);
                    }
                    owner
                },
            };
            workspaces.push(workspace);
        } else {
            workspaces.push(None);
        }
        i = i + 1;
    }
    assert(uris@.subrange(0, uris@.len() as int) =~= uris@);
    let docs = state.documents();
    let ghost pred = |k: int|
        exists|i: int|
            0 <= i < uris@.len() && uri_is_style@[i] && #[trigger] file_change_refreshes(
                state.docs(),
                state.folders(),
                doc_is_style@,
                uris@[i]@,
                k,
            );
    let mut refreshed: Vec<bool> = Vec::new();
    let mut k: usize = 0;
    while k < docs.len()
        invariant
            k <= docs@.len(),
            docs@ == state.docs(),
            doc_is_style@.len() == docs@.len(),
            uri_is_style@.len() == uris@.len(),
            workspaces@.len() == uris@.len(),
            forall|j: int|
                0 <= j < uris@.len() && uri_is_style@[j] ==> opt_view(#[trigger] workspaces@[j]) == style_workspace(
                    state.docs(),
                    state.folders(),
                    uris@[j]@,
                ),
            refreshed@.len() == k,
            pred == (|k: int|
                exists|i: int|
                    0 <= i < uris@.len() && uri_is_style@[i] && #[trigger] file_change_refreshes(
                        state.docs(),
                        state.folders(),
                        doc_is_style@,
                        uris@[i]@,
                        k,
                    )),
            forall|j: int| 0 <= j < k ==> refreshed@[j] == pred(j),
        decreases docs@.len() - k,
    {
        let mut any = false;
        if !doc_is_style[k] {
            let mut j: usize = 0;
            while j < uris.len() && !any
                invariant
                    j <= uris@.len(),
                    k < docs@.len(),
                    docs@ == state.docs(),
                    doc_is_style@.len() == docs@.len(),
                    !doc_is_style@[k as int],
                    uri_is_style@.len() == uris@.len(),
                    workspaces@.len() == uris@.len(),
                    forall|m: int|
                        0 <= m < uris@.len() && uri_is_style@[m] ==> opt_view(#[trigger] workspaces@[m])
                            == style_workspace(state.docs(), state.folders(), uris@[m]@),
                    any == exists|m: int|
                        0 <= m < j && uri_is_style@[m] && #[trigger] file_change_refreshes(
                            state.docs(),
                            state.folders(),
                            doc_is_style@,
                            uris@[m]@,
                            k as int,
                        ),
                decreases uris@.len() - j,
            {
                if uri_is_style[j] {
                    let hit = match &workspaces[j] {
                        Some(w) => workspace_folder_compatible(Some(w.as_str()), &docs[k]),
                        None => true,
                    };
                    if hit {
                        any = true;
                        assert(file_change_refreshes(
                            state.docs(),
                            state.folders(),
                            doc_is_style@,
                            uris@[j as int]@,
                            k as int,
                        ));
                    }
                }
                j = j + 1;
            }
        }
        proof {
            if !doc_is_style@[k as int] {
                assert(any == pred(k as int));
            } else {
                assert forall|m: int| 0 <= m < uris@.len() && uri_is_style@[m] implies !file_change_refreshes(
                    state.docs(),
                    state.folders(),
                    doc_is_style@,
                    uris@[m]@,
                    k as int,
                ) by {}
            }
        }
        refreshed.push(any);
        k = k + 1;
    }
    push_sources(docs, &refreshed, &mut out, Ghost(pred));
    out
}

/// The diagnostics to publish for every open document the server holds, in URI
/// order.
pub fn diagnostics_for_open_documents(state: &LspShellState) -> (res: Vec<DiagnosticsPublication>)
    requires
        state.wf(),
    ensures
        crate::uri_set::strings_sorted(res@.map_values(|p: DiagnosticsPublication| p.uri)),
        forall|i: int| 0 <= i < res@.len() ==> (#[trigger] res@[i]).content == DiagnosticsContent::Document,
        forall|u: Seq<char>|
            crate::uri_set::members(res@.map_values(|p: DiagnosticsPublication| p.uri)).contains(u) <==> (
            state.open_uris().contains(u) && crate::documents::holds_document(state.docs(), u)),
{
    let uris = state.open_document_uris_for_diagnostics();
    let ghost all = uris@;
    let n = uris.len();
    let mut rest = uris;
    let mut out: Vec<DiagnosticsPublication> = Vec::new();
    let mut i: usize = 0;
    assert(all.subrange(0, all.len() as int) =~= all);
    while rest.len() > 0
        invariant
            i <= all.len(),
            all.len() == n,
            rest@ == all.subrange(i as int, all.len() as int),
            out@.map_values(|p: DiagnosticsPublication| p.uri) == all.subrange(0, i as int),
            forall|j: int| 0 <= j < out@.len() ==> (#[trigger] out@[j]).content == DiagnosticsContent::Document,
        decreases rest@.len(),
    {
        assert(rest@[0] == all[i as int]);
        let uri = rest.remove(0);
        proof {
            assert(rest@ =~= all.subrange(i + 1, all.len() as int));
        }
        let ghost before = out@;
        out.push(DiagnosticsPublication { uri, content: DiagnosticsContent::Document });
        assert(out@.map_values(|p: DiagnosticsPublication| p.uri) =~= before.map_values(
            |p: DiagnosticsPublication| p.uri,
        ).push(all[i as int]));
        assert(all.subrange(0, i as int).push(all[i as int]) =~= all.subrange(0, i + 1));
        i = i + 1;
    }
    assert(all.subrange(0, i as int) =~= all);
    out
}

/// Whether `res` is what a refresh of the open documents publishes: each open
/// document the server holds, once, in URI order, with its diagnostics.
pub open spec fn open_documents_published(state: LspShellState, res: Seq<DiagnosticsPublication>) -> bool {
    &&& crate::uri_set::strings_sorted(res.map_values(|p: DiagnosticsPublication| p.uri))
    &&& forall|i: int| 0 <= i < res.len() ==> (#[trigger] res[i]).content == DiagnosticsContent::Document
    &&& forall|u: Seq<char>|
        crate::uri_set::members(res.map_values(|p: DiagnosticsPublication| p.uri)).contains(u) <==> (
        state.open_uris().contains(u) && crate::documents::holds_document(state.docs(), u))
}

/// Whether `flags` classifies the URIs of `event`: one flag for a text-document
/// event, one per file for changed files, none otherwise.
pub open spec fn event_flags_fit(event: Option<DiagnosticsScheduleEvent>, flags: Seq<bool>) -> bool {
    match event {
        Some(DiagnosticsScheduleEvent::TextDocument { .. }) => flags.len() == 1,
        Some(DiagnosticsScheduleEvent::WatchedFiles { uris }) => flags.len() == uris@.len(),
        _ => true,
    }
}

/// The diagnostics notifications a message's scheduler event calls for: none
/// without an event; those of a text-document event, of changed files, or of a
/// refresh of the open documents (after a configuration change or initialisation).
/// `event_uri_is_style` tells whether each URI of the event names a style
/// document, `doc_is_style` the same of each document the server holds.
pub fn plan_diagnostics_publications(
    state: &LspShellState,
    event: &Option<DiagnosticsScheduleEvent>,
    event_uri_is_style: &[bool],
    doc_is_style: &[bool],
) -> (res: Vec<DiagnosticsPublication>)
    requires
        state.wf(),
        doc_is_style@.len() == state.docs().len(),
        event_flags_fit(*event, event_uri_is_style@),
    ensures
        match *event {
            None => res@.len() == 0,
            Some(DiagnosticsScheduleEvent::TextDocument { uri, is_close }) => publications_view(res@)
                == text_event_publications(
                state.docs(),
                doc_is_style@,
                uri@,
                is_close,
                event_uri_is_style@[0],
            ),
            Some(DiagnosticsScheduleEvent::WatchedFiles { uris }) => publications_view(res@)
                == watched_publications(
                state.docs(),
                state.folders(),
                uris@,
                event_uri_is_style@,
                doc_is_style@,
            ),
            Some(DiagnosticsScheduleEvent::ConfigurationChanged) => open_documents_published(
                *state,
                res@,
            ),
            Some(DiagnosticsScheduleEvent::Initialized) => open_documents_published(*state, res@),
        },
{
    match event {
        None => Vec::new(),
        Some(DiagnosticsScheduleEvent::TextDocument { uri, is_close }) => {
            diagnostics_for_text_document_event(
                state,
                uri.as_str(),
                *is_close,
                event_uri_is_style[0],
                doc_is_style,
            )
        },
        Some(DiagnosticsScheduleEvent::WatchedFiles { uris }) => {
            diagnostics_for_watched_files(state, uris.as_slice(), event_uri_is_style, doc_is_style)
        },
        Some(DiagnosticsScheduleEvent::ConfigurationChanged) => diagnostics_for_open_documents(state),
        Some(DiagnosticsScheduleEvent::Initialized) => diagnostics_for_open_documents(state),
    }
}

} // verus!
