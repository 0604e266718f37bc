use vstd::prelude::*;
use vstd::string::StringSliceAdditionalSpecFns;
use vstd::utf8::{encode_utf8, encode_utf8_decode_utf8};

use crate::bytes::{
    bytes_equal, bytes_less, bytes_precede, lemma_precede_asymmetric, lemma_precede_irreflexive,
    lemma_precede_total, lemma_precede_transitive,
};
use crate::path::{
    contains_path, depth, lemma_normalized_depth_bound, normalize_path, normalized,
    path_depth, path_is_equal_or_descendant, uri_root_path, NormalizedPath, PathView,
};
use crate::uri::{file_uri_path, file_uri_to_path};

verus! {

/// A workspace folder the client has told the server about.
#[derive(Debug, PartialEq, Eq)]
pub struct LspWorkspaceFolderState {
    pub uri: String,
    pub name: String,
}

impl Clone for LspWorkspaceFolderState {
    fn clone(&self) -> (res: Self)
        ensures
            res == *self,
    {
        LspWorkspaceFolderState { uri: self.uri.clone(), name: self.name.clone() }
    }
}

/// The UTF-8 bytes of a string, by which folders are ordered.
pub open spec fn text_bytes(s: String) -> Seq<u8> {
    encode_utf8(s@)
}

/// Folders are held in strictly increasing byte order of their URIs.
pub open spec fn sorted_by_uri(folders: Seq<LspWorkspaceFolderState>) -> bool {
    forall|i: int, j: int|
        0 <= i < j < folders.len() ==> bytes_precede(
            text_bytes(folders[i].uri),
            text_bytes(folders[j].uri),
        )
}

/// Whether some folder has the URI `uri`.
pub open spec fn contains_uri(folders: Seq<LspWorkspaceFolderState>, uri: Seq<char>) -> bool {
    exists|i: int| 0 <= i < folders.len() && folders[i].uri@ == uri
}

/// The folder with URI `uri`, if there is one.
pub open spec fn lookup(folders: Seq<LspWorkspaceFolderState>, uri: Seq<char>) -> Option<
    LspWorkspaceFolderState,
> {
    if contains_uri(folders, uri) {
        Some(folders[choose|i: int| 0 <= i < folders.len() && folders[i].uri@ == uri])
    } else {
        None
    }
}

/// `after` is `before` with the folder (`uri`, `name`) put in: in place of the
/// folder with that URI if there is one, else at the place that keeps the order.
pub open spec fn folder_inserted(
    before: Seq<LspWorkspaceFolderState>,
    after: Seq<LspWorkspaceFolderState>,
    uri: Seq<char>,
    name: Seq<char>,
) -> bool {
    &&& sorted_by_uri(after)
    &&& if contains_uri(before, uri) {
        forall|i: int|
            0 <= i < before.len() && before[i].uri@ == uri ==> {
                &&& after == before.update(i, after[i])
                &&& after[i].uri@ == uri
                &&& after[i].name@ == name
            }
    } else {
        exists|p: int|
            0 <= p <= before.len() && {
                &&& after == before.insert(p, after[p])
                &&& after[p].uri@ == uri
                &&& after[p].name@ == name
            }
    }
}

/// `after` is `before` without the folder with URI `uri`.
pub open spec fn folder_removed(
    before: Seq<LspWorkspaceFolderState>,
    after: Seq<LspWorkspaceFolderState>,
    uri: Seq<char>,
) -> bool {
    if contains_uri(before, uri) {
        forall|i: int|
            0 <= i < before.len() && before[i].uri@ == uri ==> after == before.remove(i)
    } else {
        after == before
    }
}

/// How strongly a folder claims a document: by containing its file path (rank 1,
/// deeper roots first), else by a URI prefix that ends at a `/` (rank 0); longer
/// folder URIs break ties.
pub struct OwnerScore {
    pub rank: int,
    pub root_depth: int,
    pub uri_len: int,
}

/// Whether `doc` equals `workspace` or continues it past a `/`.
pub open spec fn uri_descends(workspace: Seq<u8>, doc: Seq<u8>) -> bool {
    doc == workspace || (workspace.len() < doc.len() && doc.subrange(0, workspace.len() as int)
        == workspace && doc[workspace.len() as int] == 47)
}

/// The claim of the folder with URI bytes `folder` on the document with URI bytes
/// `doc`, if it has one.
pub open spec fn owner_score(folder: Seq<u8>, doc: Seq<u8>) -> Option<OwnerScore> {
    let root = uri_root_path(folder);
    let doc_path = uri_root_path(doc);
    if root is Some && doc_path is Some && contains_path(root->0, doc_path->0) {
        Some(OwnerScore { rank: 1, root_depth: depth(root->0) as int, uri_len: folder.len() as int })
    } else if uri_descends(folder, doc) {
        Some(OwnerScore { rank: 0, root_depth: 0, uri_len: folder.len() as int })
    } else {
        None
    }
}

/// Lexicographic order on scores.
pub open spec fn score_below(a: OwnerScore, b: OwnerScore) -> bool {
    a.rank < b.rank || (a.rank == b.rank && (a.root_depth < b.root_depth || (a.root_depth
        == b.root_depth && a.uri_len < b.uri_len)))
}

/// The owner of `doc` among `folders`: the folder with the highest score, the last
/// such one in order where several share it.
pub open spec fn is_owner(folders: Seq<LspWorkspaceFolderState>, doc: Seq<u8>, i: int) -> bool {
    &&& 0 <= i < folders.len()
    &&& owner_score(text_bytes(folders[i].uri), doc) is Some
    &&& forall|j: int|
        0 <= j < folders.len() && owner_score(text_bytes(folders[j].uri), doc) is Some ==> !score_below(
            owner_score(text_bytes(folders[i].uri), doc)->0,
            owner_score(text_bytes(folders[j].uri), doc)->0,
        )
    &&& forall|j: int|
        i < j < folders.len() && owner_score(text_bytes(folders[j].uri), doc) is Some ==> score_below(
            owner_score(text_bytes(folders[j].uri), doc)->0,
            owner_score(text_bytes(folders[i].uri), doc)->0,
        )
}

/// How workspace folder ownership is decided and kept.
#[derive(Debug, Clone, PartialEq, Eq)]
pub struct WorkspaceRuntimeRegistryBoundaryV0 {
    pub product: &'static str,
    pub owner: &'static str,
    pub folder_state_owner: &'static str,
    pub ownership_policy: Vec<&'static str>,
    pub indexed_document_policy: Vec<&'static str>,
    pub request_path_policy: Vec<&'static str>,
}

/// What `workspace_runtime_registry_contract` returns.
pub open spec fn is_workspace_runtime_registry_contract(res: WorkspaceRuntimeRegistryBoundaryV0) -> bool {
    &&& res.product@ == "omena-lsp-server.workspace-runtime-registry"@
    &&& res.owner@ == "omena-lsp-server/runtime/workspaceRuntimeRegistry"@
    &&& res.folder_state_owner@ == "omena-lsp-server"@
    &&& res.ownership_policy@ == seq![
        "longestWorkspaceRootOwnsDocument",
        "filePathComponentBoundariesBeforeUriPrefix",
        "workspaceFolderChangesRefreshDocumentOwnership"
    ]
    &&& res.indexed_document_policy@ == seq![
        "indexStyleDocumentsPerWorkspaceRoot",
        "evictIndexedDocumentsOnWorkspaceRemoval",
        "openedDocumentsRemainAuthoritative"
    ]
    &&& res.request_path_policy@ == seq![
        "noNodeWorkspaceRuntimeManagerOnRustLspPath",
        "resolveWorkspaceOwnershipBeforeProviderExecution",
        "keepWorkspaceOwnershipDeterministic"
    ]
}

/// The workspace-registry boundary this server declares.
pub fn workspace_runtime_registry_contract() -> (res: WorkspaceRuntimeRegistryBoundaryV0)
    ensures
        is_workspace_runtime_registry_contract(res),
{
    WorkspaceRuntimeRegistryBoundaryV0 {
        product: "omena-lsp-server.workspace-runtime-registry",
        owner: "omena-lsp-server/runtime/workspaceRuntimeRegistry",
        folder_state_owner: "omena-lsp-server",
        ownership_policy: vec![
            "longestWorkspaceRootOwnsDocument",
            "filePathComponentBoundariesBeforeUriPrefix",
            "workspaceFolderChangesRefreshDocumentOwnership",
        ],
        indexed_document_policy: vec![
            "indexStyleDocumentsPerWorkspaceRoot",
            "evictIndexedDocumentsOnWorkspaceRemoval",
            "openedDocumentsRemainAuthoritative",
        ],
        request_path_policy: vec![
            "noNodeWorkspaceRuntimeManagerOnRustLspPath",
            "resolveWorkspaceOwnershipBeforeProviderExecution",
            "keepWorkspaceOwnershipDeterministic",
        ],
    }
}

/// `res` is what resolving the owner of `doc` among `folders` gives: the URI of
/// the owner, or `None` where no folder claims the document.
pub open spec fn resolves_owner(
    folders: Seq<LspWorkspaceFolderState>,
    doc: Seq<u8>,
    res: Option<String>,
) -> bool {
    match res {
        Some(owner) => exists|i: int| is_owner(folders, doc, i) && folders[i].uri == owner,
        None => forall|i: int|
            0 <= i < folders.len() ==> owner_score(text_bytes(#[trigger] folders[i].uri), doc) is None,
    }
}

/// The name of each folder, by URI.
pub open spec fn folder_names(folders: Seq<LspWorkspaceFolderState>) -> Map<Seq<char>, Seq<char>> {
    Map::new(|u: Seq<char>| contains_uri(folders, u), |u: Seq<char>| lookup(folders, u)->0.name@)
}

/// Folders sorted strictly by URI have distinct URIs: there are as many folder
/// names as folders.
pub proof fn lemma_folder_count(folders: Seq<LspWorkspaceFolderState>)
    requires
        sorted_by_uri(folders),
    ensures
        folder_names(folders).dom().finite(),
        folder_names(folders).dom().len() == folders.len(),
    decreases folders.len(),
{
    if folders.len() == 0 {
        assert(folder_names(folders).dom() =~= Set::<Seq<char>>::empty());
    } else {
        let rest = folders.drop_last();
        let last = folders.last();
        assert(sorted_by_uri(rest)) by {
            assert forall|i: int, j: int| 0 <= i < j < rest.len() implies bytes_precede(
                text_bytes(rest[i].uri),
                text_bytes(rest[j].uri),
            ) by {
                assert(rest[i] == folders[i] && rest[j] == folders[j]);
            }
        }
        lemma_folder_count(rest);
        assert(!folder_names(rest).dom().contains(last.uri@)) by {
            if contains_uri(rest, last.uri@) {
                let k = choose|k: int| 0 <= k < rest.len() && rest[k].uri@ == last.uri@;
                assert(rest[k] == folders[k]);
                assert(bytes_precede(text_bytes(folders[k].uri), text_bytes(folders[folders.len() - 1].uri)));
                assert(text_bytes(folders[k].uri) == text_bytes(last.uri));
                lemma_precede_irreflexive(text_bytes(last.uri));
            }
        }
        assert(folder_names(folders).dom() =~= folder_names(rest).dom().insert(last.uri@)) by {
            assert forall|u: Seq<char>| folder_names(folders).dom().contains(u) implies folder_names(
                rest,
            ).dom().insert(last.uri@).contains(u) by {
                let k = choose|k: int| 0 <= k < folders.len() && folders[k].uri@ == u;
                if k < folders.len() - 1 {
                    assert(rest[k] == folders[k]);
                }
            }
            assert forall|u: Seq<char>| folder_names(rest).dom().insert(last.uri@).contains(
                u,
            ) implies folder_names(folders).dom().contains(u) by {
                if u == last.uri@ {
                    assert(folders[folders.len() - 1].uri@ == u);
                } else {
                    let k = choose|k: int| 0 <= k < rest.len() && rest[k].uri@ == u;
                    assert(folders[k] == rest[k]);
                }
            }
        }
    }
}

struct WorkspaceRuntimeFolderEntry {
    folder: LspWorkspaceFolderState,
    root_path: Option<NormalizedPath>,
}

/// The workspace folders, each with its normalised root path, ordered by URI.
pub struct WorkspaceRuntimeRegistry {
    folders: Vec<WorkspaceRuntimeFolderEntry>,
}

spec fn opt_path_view(p: Option<NormalizedPath>) -> Option<PathView> {
    match p {
        Some(path) => Some(path.view()),
        None => None,
    }
}

/// Equal UTF-8 encodings come from equal texts.
proof fn lemma_text_bytes_injective(a: String, b: String)
    ensures
        (text_bytes(a) == text_bytes(b)) == (a@ == b@),
{
    encode_utf8_decode_utf8(a@);
    encode_utf8_decode_utf8(b@);
}

fn string_bytes(s: &String) -> (res: &[u8])
    ensures
        res@ == text_bytes(*s),
{
    s.as_str().as_bytes()
}

impl WorkspaceRuntimeRegistry {
    /// The folders, in order.
    pub closed spec fn view(&self) -> Seq<LspWorkspaceFolderState> {
        self.folders@.map_values(|e: WorkspaceRuntimeFolderEntry| e.folder)
    }

    /// Each entry's root path is the normalised path of its URI, and the folders
    /// are ordered by URI.
    pub closed spec fn wf(&self) -> bool {
        &&& forall|i: int|
            0 <= i < self.folders@.len() ==> {
                &&& opt_path_view(#[trigger] self.folders@[i].root_path) == uri_root_path(
                    text_bytes(self.folders@[i].folder.uri),
                )
                &&& match self.folders@[i].root_path {
                    Some(p) => depth(p.view()) <= usize::MAX,
                    None => true,
                }
            }
        &&& sorted_by_uri(self.view())
    }

    /// A well-formed registry holds its folders in URI order.
    pub proof fn lemma_sorted(&self)
        requires
            self.wf(),
        ensures
            sorted_by_uri(self.view()),
    {
    }

    /// An empty registry.
    pub fn new() -> (res: Self)
        ensures
            res.wf(),
            res.view() == Seq::<LspWorkspaceFolderState>::empty(),
    {
        let res = WorkspaceRuntimeRegistry { folders: Vec::new() };
        assert(res.view() =~= Seq::<LspWorkspaceFolderState>::empty());
        res
    }

    /// Forgets every folder.
    pub fn clear(&mut self)
        ensures
            final(self).wf(),
            final(self).view() == Seq::<LspWorkspaceFolderState>::empty(),
    {
        self.folders.clear();
        assert(self.view() =~= Seq::<LspWorkspaceFolderState>::empty());
    }

    /// The number of folders.
    pub fn len(&self) -> (res: usize)
        ensures
            res == self.view().len(),
    {
        self.folders.len()
    }

    fn entry_for(uri: &str, name: &str) -> (res: WorkspaceRuntimeFolderEntry)
        ensures
            res.folder.uri@ == uri@,
            res.folder.name@ == name@,
            opt_path_view(res.root_path) == uri_root_path(text_bytes(res.folder.uri)),
            match res.root_path {
                Some(p) => depth(p.view()) <= usize::MAX,
                None => true,
            },
    {
        let owned_uri = uri.to_owned();
        let root_path = match file_uri_to_path(uri) {
            Some(path) => {
                proof {
                    lemma_normalized_depth_bound(path@);
                }
                Some(normalize_path(path.as_slice()))
            },
            None => None,
        };
        WorkspaceRuntimeFolderEntry {
            folder: LspWorkspaceFolderState { uri: owned_uri, name: name.to_owned() },
            root_path,
        }
    }

    /// Adds the folder (`uri`, `name`), replacing the folder with that URI if there is one.
    pub fn insert(&mut self, uri: &str, name: &str)
        requires
            old(self).wf(),
        ensures
            final(self).wf(),
            folder_inserted(old(self).view(), final(self).view(), uri@, name@),
    {
        let entry = Self::entry_for(uri, name);
        let key = uri.as_bytes();
        let ghost k = key@;
        let ghost before = self.view();
        proof {
            assert(k == text_bytes(entry.folder.uri));
        }
        let mut i: usize = 0;
        while i < self.folders.len() && bytes_less(string_bytes(&self.folders[i].folder.uri), key)
            invariant
                self.view() == before,
                self.wf(),
                i <= self.folders@.len(),
                k == key@,
                forall|j: int| 0 <= j < i ==> bytes_precede(text_bytes(before[j].uri), k),
            decreases self.folders@.len() - i,
        {
            assert(before[i as int] == self.folders@[i as int].folder);
            i = i + 1;
        }
        let found = i < self.folders.len() && bytes_equal(string_bytes(&self.folders[i].folder.uri), key);
        proof {
            // Every folder from position `i` on comes after the new URI or has it.
            if i < self.folders@.len() {
                assert(before[i as int] == self.folders@[i as int].folder);
                lemma_precede_total(text_bytes(before[i as int].uri), k);
            }
            assert forall|j: int| 0 <= j < before.len() && before[j].uri@ == uri@ implies j == i
                && found by {
                lemma_text_bytes_injective(before[j].uri, entry.folder.uri);
                if j < i {
                    lemma_precede_irreflexive(k);
                } else if j > i {
                    assert(bytes_precede(text_bytes(before[i as int].uri), text_bytes(before[j].uri)));
                    if !found {
                        assert(bytes_precede(k, text_bytes(before[i as int].uri)));
                        lemma_precede_transitive(k, text_bytes(before[i as int].uri), text_bytes(before[j].uri));
                        lemma_precede_irreflexive(k);
                    } else {
                        lemma_precede_irreflexive(k);
                    }
                }
            }
            if found {
                lemma_text_bytes_injective(before[i as int].uri, entry.folder.uri);
                assert(contains_uri(before, uri@));
            }
        }
        if found {
            self.folders.set(i, entry);
            proof {
                assert(self.view() =~= before.update(i as int, self.view()[i as int]));
                assert forall|a: int, b: int| 0 <= a < b < self.view().len() implies bytes_precede(
                    text_bytes(self.view()[a].uri),
                    text_bytes(self.view()[b].uri),
                ) by {
                    assert(before[a] == self.view()[a] || a == i);
                    assert(before[b] == self.view()[b] || b == i);
                }
            }
        } else {
            self.folders.insert(i, entry);
            proof {
                assert(self.view() =~= before.insert(i as int, self.view()[i as int]));
                assert forall|a: int, b: int| 0 <= a < b < self.view().len() implies bytes_precede(
                    text_bytes(self.view()[a].uri),
                    text_bytes(self.view()[b].uri),
                ) by {
                    if b == i {
                        assert(self.view()[a] == before[a]);
                    } else if a == i {
                        assert(self.view()[b] == before[b - 1]);
                        assert(bytes_precede(k, text_bytes(before[i as int].uri)));
                        if b - 1 > i {
                            lemma_precede_transitive(
                                k,
                                text_bytes(before[i as int].uri),
                                text_bytes(before[b - 1].uri),
                            );
                        }
                    } else if a < i && b > i {
                        assert(self.view()[a] == before[a]);
                        assert(self.view()[b] == before[b - 1]);
                        assert(bytes_precede(k, text_bytes(before[i as int].uri)));
                        assert(bytes_precede(text_bytes(before[a].uri), k));
                        lemma_precede_transitive(text_bytes(before[a].uri), k, text_bytes(before[i as int].uri));
                        if b - 1 > i {
                            lemma_precede_transitive(
                                text_bytes(before[a].uri),
                                text_bytes(before[i as int].uri),
                                text_bytes(before[b - 1].uri),
                            );
                        }
                    } else if a < i {
                        assert(self.view()[a] == before[a]);
                        assert(self.view()[b] == before[b]);
                    } else {
                        assert(self.view()[a] == before[a - 1]);
                        assert(self.view()[b] == before[b - 1]);
                    }
                }
            }
        }
    }

    /// Where the folder with URI `uri` stands, if it is there.
    fn position_of(&self, uri: &str) -> (res: Option<usize>)
        requires
            self.wf(),
        ensures
            match res {
                Some(i) => i < self.view().len() && self.view()[i as int].uri@ == uri@,
                None => !contains_uri(self.view(), uri@),
            },
            forall|i: int|
                0 <= i < self.view().len() && (#[trigger] self.view()[i]).uri@ == uri@ ==> (res
                    matches Some(k) && k == i),
    {
        let key = uri.as_bytes();
        let ghost v = self.view();
        let mut i: usize = 0;
        while i < self.folders.len()
            invariant
                v == self.view(),
                self.wf(),
                i <= self.folders@.len(),
                key@ == uri.spec_bytes(),
                forall|j: int| 0 <= j < i ==> v[j].uri@ != uri@,
            decreases self.folders@.len() - i,
        {
            assert(v[i as int] == self.folders@[i as int].folder);
            if bytes_equal(string_bytes(&self.folders[i].folder.uri), key) {
                proof {
                    encode_utf8_decode_utf8(v[i as int].uri@);
                    encode_utf8_decode_utf8(uri@);
                    assert forall|j: int|
                        0 <= j < v.len() && v[j].uri@ == uri@ implies j == i by {
                        if j != i {
                            if j < i {
                                lemma_precede_irreflexive(text_bytes(v[j].uri));
                            } else {
                                assert(bytes_precede(text_bytes(v[i as int].uri), text_bytes(v[j].uri)));
                                lemma_precede_irreflexive(text_bytes(v[j].uri));
                            }
                        }
                    }
                }
                return Some(i);
            }
            proof {
                if v[i as int].uri@ == uri@ {
                    encode_utf8_decode_utf8(v[i as int].uri@);
                }
            }
            i = i + 1;
        }
        None
    }

    /// Removes the folder with URI `uri` and returns it, if it is there.
    pub fn remove(&mut self, uri: &str) -> (res: Option<LspWorkspaceFolderState>)
        requires
            old(self).wf(),
        ensures
            final(self).wf(),
            folder_removed(old(self).view(), final(self).view(), uri@),
            res == lookup(old(self).view(), uri@),
    {
        let ghost before = self.view();
        match self.position_of(uri) {
            Some(i) => {
                let entry = self.folders.remove(i);
                proof {
                    assert(self.view() =~= before.remove(i as int));
                    assert(before[i as int] == entry.folder);
                    assert(before[i as int].uri@ == uri@);
                    let c = choose|j: int| 0 <= j < before.len() && before[j].uri@ == uri@;
                    assert(0 <= c < before.len() && before[c].uri@ == uri@);
                    assert(c == i);
                    assert forall|j: int| 0 <= j < before.len() && before[j].uri@ == uri@ implies self.view()
                        == before.remove(j) by {
                        assert(j == i);
                    }
                    assert forall|a: int, b: int| 0 <= a < b < self.view().len() implies bytes_precede(
                        text_bytes(self.view()[a].uri),
                        text_bytes(self.view()[b].uri),
                    ) by {
                        if a >= i {
                            assert(self.view()[a] == before[a + 1]);
                            assert(self.view()[b] == before[b + 1]);
                        } else if b >= i {
                            assert(self.view()[a] == before[a]);
                            assert(self.view()[b] == before[b + 1]);
                        } else {
                            assert(self.view()[a] == before[a]);
                            assert(self.view()[b] == before[b]);
                        }
                    }
                }
                Some(entry.folder)
            },
            None => None,
        }
    }

    /// The folder with URI `uri`, if it is there.
    pub fn get(&self, uri: &str) -> (res: Option<&LspWorkspaceFolderState>)
        requires
            self.wf(),
        ensures
            match res {
                Some(f) => lookup(self.view(), uri@) == Some(*f),
                None => lookup(self.view(), uri@) is None,
            },
    {
        match self.position_of(uri) {
            Some(i) => {
                proof {
                    assert(self.view()[i as int].uri@ == uri@);
                    let c = choose|j: int| 0 <= j < self.view().len() && self.view()[j].uri@ == uri@;
                    assert(0 <= c < self.view().len() && self.view()[c].uri@ == uri@);
                    assert(c == i);
                    assert(self.view()[i as int] == self.folders@[i as int].folder);
                }
                Some(&self.folders[i].folder)
            },
            None => None,
        }
    }

    /// Copies of the folders, in order.
    pub fn folder_snapshots(&self) -> (res: Vec<LspWorkspaceFolderState>)
        ensures
            res@ == self.view(),
    {
        let mut res: Vec<LspWorkspaceFolderState> = Vec::new();
        let mut i: usize = 0;
        while i < self.folders.len()
            invariant
                i <= self.folders@.len(),
                res@ == self.view().subrange(0, i as int),
            decreases self.folders@.len() - i,
        {
            res.push(self.folders[i].folder.clone());
            i = i + 1;
            assert(res@ =~= self.view().subrange(0, i as int));
        }
        assert(self.view().subrange(0, i as int) =~= self.view());
        res
    }

    /// The URI of the folder that owns the document with URI `document_uri` (see
    /// `is_owner`), or `None` where no folder claims it.
    pub fn resolve_owner_uri(&self, document_uri: &str) -> (res: Option<String>)
        requires
            self.wf(),
        ensures
            resolves_owner(self.view(), document_uri.spec_bytes(), res),
    {
        let document_path = match file_uri_to_path(document_uri) {
            Some(path) => Some(normalize_path(path.as_slice())),
            None => None,
        };
        let ghost doc = document_uri.spec_bytes();
        let ghost v = self.view();
        let mut best: Option<(u8, usize, usize, usize)> = None;
        let mut i: usize = 0;
        while i < self.folders.len()
            invariant
                v == self.view(),
                self.wf(),
                i <= self.folders@.len(),
                opt_path_view(document_path) == uri_root_path(doc),
                doc == document_uri.spec_bytes(),
                match best {
                    None => forall|j: int|
                        0 <= j < i ==> owner_score(text_bytes(#[trigger] v[j].uri), doc) is None,
                    Some((rank, root_depth, uri_len, index)) => {
                        &&& index < i
                        &&& owner_score(text_bytes(v[index as int].uri), doc) == Some(
                            OwnerScore {
                                rank: rank as int,
                                root_depth: root_depth as int,
                                uri_len: uri_len as int,
                            },
                        )
                        &&& forall|j: int|
                            0 <= j < i && owner_score(text_bytes(v[j].uri), doc) is Some ==> !score_below(
                                owner_score(text_bytes(v[index as int].uri), doc)->0,
                                owner_score(text_bytes(v[j].uri), doc)->0,
                            )
                        &&& forall|j: int|
                            index < j < i && owner_score(text_bytes(v[j].uri), doc) is Some
                                ==> score_below(
                                owner_score(text_bytes(v[j].uri), doc)->0,
                                owner_score(text_bytes(v[index as int].uri), doc)->0,
                            )
                    },
                },
            decreases self.folders@.len() - i,
        {
            let entry = &self.folders[i];
            assert(v[i as int] == entry.folder);
            let score = Self::owner_score_of(entry, document_uri, &document_path);
            match score {
                Some((rank, root_depth, uri_len)) => {
                    let replace = match best {
                        None => true,
                        Some((br, bd, bl, _)) => br < rank || (br == rank && (bd < root_depth || (bd
                            == root_depth && bl <= uri_len))),
                    };
                    if replace {
                        best = Some((rank, root_depth, uri_len, i));
                    }
                },
                None => {},
            }
            i = i + 1;
        }
        match best {
            Some((_, _, _, index)) => {
                assert(v[index as int] == self.folders@[index as int].folder);
                assert(is_owner(v, doc, index as int));
                Some(self.folders[index].folder.uri.clone())
            },
            None => None,
        }
    }

    fn owner_score_of(
        entry: &WorkspaceRuntimeFolderEntry,
        document_uri: &str,
        document_path: &Option<NormalizedPath>,
    ) -> (res: Option<(u8, usize, usize)>)
        requires
            opt_path_view(entry.root_path) == uri_root_path(text_bytes(entry.folder.uri)),
            match entry.root_path {
                Some(p) => depth(p.view()) <= usize::MAX,
                None => true,
            },
            opt_path_view(*document_path) == uri_root_path(document_uri.spec_bytes()),
        ensures
            match owner_score(text_bytes(entry.folder.uri), document_uri.spec_bytes()) {
                Some(s) => res matches Some((rank, root_depth, uri_len)) && s == OwnerScore {
                    rank: rank as int,
                    root_depth: root_depth as int,
                    uri_len: uri_len as int,
                },
                None => res is None,
            },
    {
        let folder_uri = string_bytes(&entry.folder.uri);
        if let (Some(root), Some(doc_path)) = (&entry.root_path, document_path) {
            if path_is_equal_or_descendant(doc_path, root) {
                return Some((1, path_depth(root), folder_uri.len()));
            }
        }
        if uri_is_equal_or_descendant(folder_uri, document_uri.as_bytes()) {
            return Some((0, 0, folder_uri.len()));
        }
        None
    }
}

impl Default for WorkspaceRuntimeRegistry {
    fn default() -> (res: Self)
        ensures
            res.wf(),
            res.view() == Seq::<LspWorkspaceFolderState>::empty(),
    {
        Self::new()
    }
}

/// Whether `document_uri` equals `workspace_uri` or continues it past a `/`.
pub fn uri_is_equal_or_descendant(workspace_uri: &[u8], document_uri: &[u8]) -> (res: bool)
    ensures
        res == uri_descends(workspace_uri@, document_uri@),
{
    if bytes_equal(workspace_uri, document_uri) {
        return true;
    }
    let n = workspace_uri.len();
    if n >= document_uri.len() {
        return false;
    }
    let mut i: usize = 0;
    while i < n
        invariant
            n == workspace_uri@.len(),
            n < document_uri@.len(),
            i <= n,
            forall|j: int| 0 <= j < i ==> document_uri@[j] == workspace_uri@[j],
        decreases n - i,
    {
        if document_uri[i] != workspace_uri[i] {
            assert(document_uri@.subrange(0, n as int)[i as int] != workspace_uri@[i as int]);
            return false;
        }
        i = i + 1;
    }
    assert(document_uri@.subrange(0, n as int) =~= workspace_uri@);
    document_uri[n] == 47
}


} // verus!

verus! {

/// Folders kept in URI order have pairwise different URIs.
pub proof fn lemma_sorted_unique(folders: Seq<LspWorkspaceFolderState>, i: int, j: int)
    requires
        sorted_by_uri(folders),
        0 <= i < folders.len(),
        0 <= j < folders.len(),
        folders[i].uri@ == folders[j].uri@,
    ensures
        i == j,
{
    assert(text_bytes(folders[i].uri) == text_bytes(folders[j].uri));
    if i < j {
        assert(bytes_precede(text_bytes(folders[i].uri), text_bytes(folders[j].uri)));
        lemma_precede_irreflexive(text_bytes(folders[i].uri));
    } else if j < i {
        assert(bytes_precede(text_bytes(folders[j].uri), text_bytes(folders[i].uri)));
        lemma_precede_irreflexive(text_bytes(folders[j].uri));
    }
}

/// In folders kept in URI order, the folder at a position is the one looked up by its URI.
pub proof fn lemma_lookup_at(folders: Seq<LspWorkspaceFolderState>, i: int)
    requires
        sorted_by_uri(folders),
        0 <= i < folders.len(),
    ensures
        lookup(folders, folders[i].uri@) == Some(folders[i]),
{
    let u = folders[i].uri@;
    assert(contains_uri(folders, u));
    let c = choose|k: int| 0 <= k < folders.len() && folders[k].uri@ == folders[i].uri@;
    assert(0 <= c < folders.len() && folders[c].uri@ == u);
    lemma_sorted_unique(folders, c, i);
    assert(lookup(folders, u) == Some(folders[c]));
}

/// Law: after a folder is inserted, looking up its URI gives that folder, with the
/// name it was inserted with.
pub proof fn law_lookup_after_insert(
    before: Seq<LspWorkspaceFolderState>,
    after: Seq<LspWorkspaceFolderState>,
    uri: Seq<char>,
    name: Seq<char>,
)
    requires
        sorted_by_uri(before),
        folder_inserted(before, after, uri, name),
    ensures
        lookup(after, uri) matches Some(f) && f.uri@ == uri && f.name@ == name,
{
    if contains_uri(before, uri) {
        let i = choose|j: int| 0 <= j < before.len() && before[j].uri@ == uri;
        assert(0 <= i < before.len() && before[i].uri@ == uri);
        assert(after == before.update(i, after[i]));
        lemma_lookup_at(after, i);
    } else {
        let p = choose|p: int|
            0 <= p <= before.len() && {
                &&& after == before.insert(p, after[p])
                &&& after[p].uri@ == uri
                &&& after[p].name@ == name
            };
        lemma_lookup_at(after, p);
    }
}

/// Law: inserting a folder leaves the lookup of every other URI as it was.
pub proof fn law_insert_keeps_other_folders(
    before: Seq<LspWorkspaceFolderState>,
    after: Seq<LspWorkspaceFolderState>,
    uri: Seq<char>,
    name: Seq<char>,
    other: Seq<char>,
)
    requires
        sorted_by_uri(before),
        folder_inserted(before, after, uri, name),
        other != uri,
    ensures
        lookup(after, other) == lookup(before, other),
{
    if contains_uri(before, uri) {
        let i = choose|j: int| 0 <= j < before.len() && before[j].uri@ == uri;
        assert(0 <= i < before.len() && before[i].uri@ == uri);
        assert(after == before.update(i, after[i]));
        if contains_uri(before, other) {
            let k = choose|j: int| 0 <= j < before.len() && before[j].uri@ == other;
            assert(after[k] == before[k]);
            lemma_lookup_at(before, k);
            lemma_lookup_at(after, k);
        } else {
            assert forall|j: int| 0 <= j < after.len() implies after[j].uri@ != other by {
                if j != i {
                    assert(after[j] == before[j]);
                }
            }
        }
    } else {
        let p = choose|p: int|
            0 <= p <= before.len() && {
                &&& after == before.insert(p, after[p])
                &&& after[p].uri@ == uri
                &&& after[p].name@ == name
            };
        if contains_uri(before, other) {
            let k = choose|j: int| 0 <= j < before.len() && before[j].uri@ == other;
            let k2 = if k < p { k } else { k + 1 };
            assert(after[k2] == before[k]);
            lemma_lookup_at(before, k);
            lemma_lookup_at(after, k2);
        } else {
            assert forall|j: int| 0 <= j < after.len() implies after[j].uri@ != other by {
                if j < p {
                    assert(after[j] == before[j]);
                } else if j > p {
                    assert(after[j] == before[j - 1]);
                }
            }
        }
    }
}

/// Law: after the folder with a URI is removed, no folder has that URI.
pub proof fn law_lookup_after_remove(
    before: Seq<LspWorkspaceFolderState>,
    after: Seq<LspWorkspaceFolderState>,
    uri: Seq<char>,
)
    requires
        sorted_by_uri(before),
        folder_removed(before, after, uri),
    ensures
        lookup(after, uri) is None,
{
    if contains_uri(before, uri) {
        let i = choose|j: int| 0 <= j < before.len() && before[j].uri@ == uri;
        assert(0 <= i < before.len() && before[i].uri@ == uri);
        assert(after == before.remove(i));
        assert forall|j: int| 0 <= j < after.len() implies after[j].uri@ != uri by {
            if j < i {
                assert(after[j] == before[j]);
                if before[j].uri@ == uri {
                    lemma_sorted_unique(before, i, j);
                }
            } else {
                assert(after[j] == before[j + 1]);
                if before[j + 1].uri@ == uri {
                    lemma_sorted_unique(before, i, j + 1);
                }
            }
        }
    }
}

/// Law: the owner of a document is, among the folders whose root path contains the
/// document's path, one with the deepest root; a folder that claims the document
/// only by URI prefix never wins over one that contains it by path.
pub proof fn law_deepest_root_owns(
    folders: Seq<LspWorkspaceFolderState>,
    doc: Seq<u8>,
    owner: int,
    other: int,
)
    requires
        is_owner(folders, doc, owner),
        0 <= other < folders.len(),
        owner_score(text_bytes(folders[other].uri), doc) matches Some(s) && s.rank == 1,
    ensures
        owner_score(text_bytes(folders[owner].uri), doc)->0.rank == 1,
        owner_score(text_bytes(folders[owner].uri), doc)->0.root_depth >= owner_score(
            text_bytes(folders[other].uri),
            doc,
        )->0.root_depth,
{
}

/// Law: a folder claims a document only if the document's path lies under the
/// folder's root path, or the document's URI continues the folder's URI at a `/`
/// boundary; a mere textual prefix is not enough.
pub proof fn law_claims_respect_boundaries(folder: Seq<u8>, doc: Seq<u8>)
    requires
        owner_score(folder, doc) is Some,
    ensures
        (uri_root_path(folder) matches Some(root) && uri_root_path(doc) matches Some(path)
            && contains_path(root, path)) || doc == folder || (folder.len() < doc.len()
            && doc.subrange(0, folder.len() as int) == folder && doc[folder.len() as int] == 47),
{
}

} // verus!

verus! {

/// Law: the names by URI after an insert are the names before, with the inserted
/// URI naming the inserted name.
pub proof fn law_folder_names_after_insert(
    before: Seq<LspWorkspaceFolderState>,
    after: Seq<LspWorkspaceFolderState>,
    uri: Seq<char>,
    name: Seq<char>,
)
    requires
        sorted_by_uri(before),
        folder_inserted(before, after, uri, name),
    ensures
        folder_names(after) == folder_names(before).insert(uri, name),
{
    law_lookup_after_insert(before, after, uri, name);
    assert forall|u: Seq<char>| #[trigger] folder_names(after).contains_key(u) == folder_names(
        before,
    ).insert(uri, name).contains_key(u) && (folder_names(after).contains_key(u) ==> folder_names(
        after,
    )[u] == folder_names(before).insert(uri, name)[u]) by {
        if u != uri {
            law_insert_keeps_other_folders(before, after, uri, name, u);
        }
    }
    assert(folder_names(after) =~= folder_names(before).insert(uri, name));
}

/// Law: the names by URI after a removal are the names before, without the removed URI.
pub proof fn law_folder_names_after_remove(
    before: Seq<LspWorkspaceFolderState>,
    after: Seq<LspWorkspaceFolderState>,
    uri: Seq<char>,
)
    requires
        sorted_by_uri(before),
        folder_removed(before, after, uri),
    ensures
        folder_names(after) == folder_names(before).remove(uri),
{
    law_lookup_after_remove(before, after, uri);
    if contains_uri(before, uri) {
        let i = choose|j: int| 0 <= j < before.len() && before[j].uri@ == uri;
        assert(0 <= i < before.len() && before[i].uri@ == uri);
        assert(after == before.remove(i));
        assert forall|u: Seq<char>| u != uri implies #[trigger] lookup(after, u) == lookup(before, u) by {
            if contains_uri(before, u) {
                let k = choose|j: int| 0 <= j < before.len() && before[j].uri@ == u;
                assert(0 <= k < before.len() && before[k].uri@ == u);
                assert(k != i);
                let k2 = if k < i { k } else { k - 1 };
                assert(after[k2] == before[k]);
                lemma_lookup_at(before, k);
                assert forall|a: int, b: int| 0 <= a < b < after.len() implies bytes_precede(
                    text_bytes(after[a].uri),
                    text_bytes(after[b].uri),
                ) by {
                    let a2 = if a < i { a } else { a + 1 };
                    let b2 = if b < i { b } else { b + 1 };
                    assert(after[a] == before[a2]);
                    assert(after[b] == before[b2]);
                }
                lemma_lookup_at(after, k2);
            } else {
                assert forall|j: int| 0 <= j < after.len() implies after[j].uri@ != u by {
                    let j2 = if j < i { j } else { j + 1 };
                    assert(after[j] == before[j2]);
                }
            }
        }
        assert forall|u: Seq<char>| #[trigger] folder_names(after).contains_key(u) == folder_names(
            before,
        ).remove(uri).contains_key(u) && (folder_names(after).contains_key(u) ==> folder_names(
            after,
        )[u] == folder_names(before).remove(uri)[u]) by {
            if u != uri {
                assert(lookup(after, u) == lookup(before, u));
            } else {
                assert(lookup(after, u) is None);
            }
        }
        assert(folder_names(after) =~= folder_names(before).remove(uri));
    } else {
        assert(folder_names(after) =~= folder_names(before).remove(uri));
    }
}

/// Law: inserting a folder adds one folder where its URI was new and none where it
/// was there (its name is replaced); every other URI finds what it found before.
pub proof fn law_insert_counts_and_keeps_others(
    before: Seq<LspWorkspaceFolderState>,
    after: Seq<LspWorkspaceFolderState>,
    uri: Seq<char>,
    name: Seq<char>,
)
    requires
        sorted_by_uri(before),
        folder_inserted(before, after, uri, name),
    ensures
        after.len() == before.len() + if contains_uri(before, uri) {
            0int
        } else {
            1int
        },
        lookup(after, uri) matches Some(f) && f.uri@ == uri && f.name@ == name,
        forall|other: Seq<char>| other != uri ==> #[trigger] lookup(after, other) == lookup(before, other),
{
    law_lookup_after_insert(before, after, uri, name);
    if contains_uri(before, uri) {
        let i = choose|j: int| 0 <= j < before.len() && before[j].uri@ == uri;
        assert(after == before.update(i, after[i]));
    } else {
        let p = choose|p: int|
            0 <= p <= before.len() && {
                &&& after == before.insert(p, after[p])
                &&& after[p].uri@ == uri
                &&& after[p].name@ == name
            };
        assert(after.len() == before.len() + 1);
    }
    assert forall|other: Seq<char>| other != uri implies #[trigger] lookup(after, other) == lookup(
        before,
        other,
    ) by {
        law_insert_keeps_other_folders(before, after, uri, name, other);
    }
}

/// Law: removing a folder gives back what its URI found, takes one folder away where
/// there was one, leaves its URI finding nothing, and every other URI finding what
/// it found before.
pub proof fn law_remove_counts_and_keeps_others(
    before: Seq<LspWorkspaceFolderState>,
    after: Seq<LspWorkspaceFolderState>,
    uri: Seq<char>,
)
    requires
        sorted_by_uri(before),
        folder_removed(before, after, uri),
    ensures
        after.len() == before.len() - if lookup(before, uri) is Some {
            1int
        } else {
            0int
        },
        lookup(after, uri) is None,
        forall|other: Seq<char>| other != uri ==> #[trigger] lookup(after, other) == lookup(before, other),
{
    law_lookup_after_remove(before, after, uri);
    if contains_uri(before, uri) {
        let i = choose|j: int| 0 <= j < before.len() && before[j].uri@ == uri;
        assert(after == before.remove(i));
        assert forall|other: Seq<char>| other != uri implies #[trigger] lookup(after, other) == lookup(
            before,
            other,
        ) by {
            assert(sorted_by_uri(after)) by {
                assert forall|a: int, b: int| 0 <= a < b < after.len() implies bytes_precede(
                    text_bytes(after[a].uri),
                    text_bytes(after[b].uri),
                ) by {
                    let a2 = if a < i { a } else { a + 1 };
                    let b2 = if b < i { b } else { b + 1 };
                    assert(after[a] == before[a2] && after[b] == before[b2]);
                }
            }
            if contains_uri(before, other) {
                let k = choose|j: int| 0 <= j < before.len() && before[j].uri@ == other;
                lemma_lookup_at(before, k);
                assert(k != i);
                let k2 = if k < i { k } else { k - 1 };
                assert(after[k2] == before[k]);
                lemma_lookup_at(after, k2);
            } else {
                if contains_uri(after, other) {
                    let k = choose|j: int| 0 <= j < after.len() && after[j].uri@ == other;
                    let k2 = if k < i { k } else { k + 1 };
                    assert(after[k] == before[k2]);
                }
            }
        }
    }
}

/// Law: the owner of a document, where there is one, is a folder that claims it with
/// the highest score; among folders of that score, the one with the greatest URI;
/// there is no owner exactly where no folder claims the document.
pub proof fn law_owner_is_best_claim(folders: Seq<LspWorkspaceFolderState>, doc: Seq<u8>, res: Option<
    String,
>)
    requires
        sorted_by_uri(folders),
        resolves_owner(folders, doc, res),
    ensures
        res is None <==> forall|j: int|
            0 <= j < folders.len() ==> owner_score(text_bytes(#[trigger] folders[j].uri), doc) is None,
        res matches Some(owner) ==> exists|i: int|
            0 <= i < folders.len() && folders[i].uri == owner && owner_score(
                text_bytes(folders[i].uri),
                doc,
            ) is Some && forall|j: int|
                0 <= j < folders.len() && owner_score(text_bytes(#[trigger] folders[j].uri), doc) is Some
                    ==> !score_below(
                    owner_score(text_bytes(folders[i].uri), doc)->0,
                    owner_score(text_bytes(folders[j].uri), doc)->0,
                ) && (bytes_precede(text_bytes(folders[i].uri), text_bytes(folders[j].uri))
                    ==> score_below(
                    owner_score(text_bytes(folders[j].uri), doc)->0,
                    owner_score(text_bytes(folders[i].uri), doc)->0,
                )),
{
    match res {
        Some(owner) => {
            let i = choose|i: int| is_owner(folders, doc, i) && folders[i].uri == owner;
            assert(owner_score(text_bytes(folders[i].uri), doc) is Some);
            assert forall|j: int|
                0 <= j < folders.len() && owner_score(text_bytes(#[trigger] folders[j].uri), doc) is Some
                    implies bytes_precede(text_bytes(folders[i].uri), text_bytes(folders[j].uri))
                    ==> score_below(
                    owner_score(text_bytes(folders[j].uri), doc)->0,
                    owner_score(text_bytes(folders[i].uri), doc)->0,
                ) by {
                if bytes_precede(text_bytes(folders[i].uri), text_bytes(folders[j].uri)) {
                    if j < i {
                        lemma_precede_asymmetric(text_bytes(folders[i].uri), text_bytes(folders[j].uri));
                    } else if j == i {
                        lemma_precede_irreflexive(text_bytes(folders[i].uri));
                    }
                }
            }
            assert(!(forall|j: int|
                0 <= j < folders.len() ==> owner_score(text_bytes(#[trigger] folders[j].uri), doc)
                    is None));
        },
        None => {},
    }
}

} // verus!
