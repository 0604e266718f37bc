use vstd::prelude::*;
use vstd::string::StringSliceAdditionalSpecFns;
use vstd::utf8::encode_utf8_decode_utf8;

use crate::bytes::{
    bytes_equal, bytes_less, bytes_precede, lemma_precede_irreflexive, lemma_precede_total,
    lemma_precede_transitive,
};
use crate::completion::SourceSyntaxSpans;
use crate::position::ParserRangeV0;
use crate::registry::text_bytes;

verus! {

/// What the style index knows of a style document.
#[derive(Debug, Clone, PartialEq, Eq)]
pub struct LspStyleDocumentSummary {
    pub language: &'static str,
    pub selector_names: Vec<String>,
    pub custom_property_decl_names: Vec<String>,
    pub custom_property_ref_names: Vec<String>,
    pub sass_module_use_sources: Vec<String>,
    pub sass_module_forward_sources: Vec<String>,
    pub diagnostic_count: usize,
}

/// A named thing at a range of a document: a selector, a custom property, a Sass
/// symbol, or a selector reference in source code.
#[derive(Debug, PartialEq, Eq)]
pub struct LspStyleHoverCandidate {
    pub kind: &'static str,
    pub name: String,
    pub range: ParserRangeV0,
    pub source: &'static str,
    pub target_style_uri: Option<String>,
    pub namespace: Option<String>,
}

/// The indexes derived from a document's text.
#[derive(Debug, Clone, PartialEq, Eq)]
pub struct DocumentIndexes {
    pub style_summary: Option<LspStyleDocumentSummary>,
    pub style_candidates: Vec<LspStyleHoverCandidate>,
    pub source_selector_candidates: Vec<LspStyleHoverCandidate>,
    pub source_syntax: SourceSyntaxSpans,
}

/// A document the server holds: opened by the client or indexed from disk.
#[derive(Debug, Clone, PartialEq, Eq)]
pub struct LspTextDocumentState {
    pub uri: String,
    pub workspace_folder_uri: Option<String>,
    pub language_id: String,
    pub version: i64,
    pub text: String,
    pub style_summary: Option<LspStyleDocumentSummary>,
    pub style_candidates: Vec<LspStyleHoverCandidate>,
    pub source_selector_candidates: Vec<LspStyleHoverCandidate>,
    pub source_syntax: SourceSyntaxSpans,
}

impl LspTextDocumentState {
    /// A document with no indexes yet.
    pub fn new(
        uri: String,
        workspace_folder_uri: Option<String>,
        language_id: String,
        version: i64,
        text: String,
    ) -> (res: Self)
        ensures
            res.uri == uri,
            res.workspace_folder_uri == workspace_folder_uri,
            res.language_id == language_id,
            res.version == version,
            res.text == text,
            res.style_summary is None,
            res.style_candidates@.len() == 0,
            res.source_selector_candidates@.len() == 0,
            res.source_syntax.is_empty(),
    {
        LspTextDocumentState {
            uri,
            workspace_folder_uri,
            language_id,
            version,
            text,
            style_summary: None,
            style_candidates: Vec::new(),
            source_selector_candidates: Vec::new(),
            source_syntax: SourceSyntaxSpans::new(),
        }
    }
}

/// A copy of an optional string.
pub fn clone_opt_string(s: &Option<String>) -> (res: Option<String>)
    ensures
        res == *s,
{
    match s {
        Some(t) => Some(t.clone()),
        None => None,
    }
}

impl Clone for LspStyleHoverCandidate {
    fn clone(&self) -> (res: Self)
        ensures
            res == *self,
    {
        LspStyleHoverCandidate {
            kind: self.kind,
            name: self.name.clone(),
            range: self.range,
            source: self.source,
            target_style_uri: clone_opt_string(&self.target_style_uri),
            namespace: clone_opt_string(&self.namespace),
        }
    }
}

/// Documents are held in strictly increasing byte order of their URIs.
pub open spec fn documents_sorted(docs: Seq<LspTextDocumentState>) -> bool {
    forall|i: int, j: int|
        0 <= i < j < docs.len() ==> bytes_precede(text_bytes(docs[i].uri), text_bytes(docs[j].uri))
}

/// Whether some document has the URI `uri`.
pub open spec fn holds_document(docs: Seq<LspTextDocumentState>, uri: Seq<char>) -> bool {
    exists|i: int| 0 <= i < docs.len() && docs[i].uri@ == uri
}

/// The document with URI `uri`, if there is one.
pub open spec fn document_at(docs: Seq<LspTextDocumentState>, uri: Seq<char>) -> Option<
    LspTextDocumentState,
> {
    if holds_document(docs, uri) {
        Some(docs[choose|i: int| 0 <= i < docs.len() && docs[i].uri@ == uri])
    } else {
        None
    }
}

/// `after` is `before` with `doc` put in: in place of the document with its URI if
/// there is one, else at the place that keeps the order.
pub open spec fn document_put(
    before: Seq<LspTextDocumentState>,
    after: Seq<LspTextDocumentState>,
    doc: LspTextDocumentState,
) -> bool {
    &&& documents_sorted(after)
    &&& if holds_document(before, doc.uri@) {
        forall|i: int|
            0 <= i < before.len() && before[i].uri@ == doc.uri@ ==> after == before.update(i, doc)
    } else {
        exists|p: int| 0 <= p <= before.len() && after == before.insert(p, doc)
    }
}

/// `after` is `before` without the document with URI `uri`.
pub open spec fn document_dropped(
    before: Seq<LspTextDocumentState>,
    after: Seq<LspTextDocumentState>,
    uri: Seq<char>,
) -> bool {
    if holds_document(before, uri) {
        forall|i: int| 0 <= i < before.len() && before[i].uri@ == uri ==> after == before.remove(i)
    } else {
        after == before
    }
}

/// In sorted documents, the document at a position is the one found by its URI.
pub proof fn lemma_document_at(docs: Seq<LspTextDocumentState>, i: int)
    requires
        documents_sorted(docs),
        0 <= i < docs.len(),
    ensures
        document_at(docs, docs[i].uri@) == Some(docs[i]),
        forall|j: int| 0 <= j < docs.len() && docs[j].uri@ == docs[i].uri@ ==> j == i,
{
    assert forall|j: int| 0 <= j < docs.len() && docs[j].uri@ == docs[i].uri@ implies j == i by {
        assert(text_bytes(docs[i].uri) == text_bytes(docs[j].uri));
        if i < j {
            assert(bytes_precede(text_bytes(docs[i].uri), text_bytes(docs[j].uri)));
            lemma_precede_irreflexive(text_bytes(docs[i].uri));
        } else if j < i {
            assert(bytes_precede(text_bytes(docs[j].uri), text_bytes(docs[i].uri)));
            lemma_precede_irreflexive(text_bytes(docs[j].uri));
        }
    }
    let u = docs[i].uri@;
    assert(holds_document(docs, u));
    let c = choose|k: int| 0 <= k < docs.len() && docs[k].uri@ == docs[i].uri@;
    assert(0 <= c < docs.len() && docs[c].uri@ == u);
    assert(document_at(docs, u) == Some(docs[c]));
}

/// In sorted documents no two documents share a URI, so a dropped document is gone.
pub proof fn lemma_dropped_document_is_gone(
    before: Seq<LspTextDocumentState>,
    after: Seq<LspTextDocumentState>,
    uri: Seq<char>,
)
    requires
        documents_sorted(before),
        document_dropped(before, after, uri),
    ensures
        !holds_document(after, uri),
        document_at(after, uri) is None,
{
    if holds_document(before, uri) {
        let i = choose|i: int| 0 <= i < before.len() && before[i].uri@ == uri;
        lemma_document_at(before, i);
        assert(after == before.remove(i));
        if holds_document(after, uri) {
            let k = choose|k: int| 0 <= k < after.len() && after[k].uri@ == uri;
            if k < i {
                assert(after[k] == before[k]);
            } else {
                assert(after[k] == before[k + 1]);
            }
        }
    }
}

fn uri_bytes(s: &String) -> (res: &[u8])
    ensures
        res@ == text_bytes(*s),
{
    s.as_str().as_bytes()
}

/// Where the document with URI `uri` stands in sorted `docs`, if it is there.
pub fn document_position(docs: &Vec<LspTextDocumentState>, uri: &str) -> (res: Option<usize>)
    requires
        documents_sorted(docs@),
    ensures
        match res {
            Some(i) => i < docs@.len() && docs@[i as int].uri@ == uri@,
            None => !holds_document(docs@, uri@),
        },
        forall|i: int|
            0 <= i < docs@.len() && (#[trigger] docs@[i]).uri@ == uri@ ==> (res matches Some(k)
                && k == i),
{
    let key = uri.as_bytes();
    let mut i: usize = 0;
    while i < docs.len()
        invariant
            documents_sorted(docs@),
            i <= docs@.len(),
            key@ == uri.spec_bytes(),
            forall|j: int| 0 <= j < i ==> docs@[j].uri@ != uri@,
        decreases docs@.len() - i,
    {
        if bytes_equal(uri_bytes(&docs[i].uri), key) {
            proof {
                encode_utf8_decode_utf8(docs@[i as int].uri@);
                encode_utf8_decode_utf8(uri@);
                lemma_document_at(docs@, i as int);
            }
            return Some(i);
        }
        proof {
            if docs@[i as int].uri@ == uri@ {
                encode_utf8_decode_utf8(docs@[i as int].uri@);
            }
        }
        i = i + 1;
    }
    None
}

/// Puts `doc` into sorted `docs` (see `document_put`).
pub fn put_document(docs: &mut Vec<LspTextDocumentState>, doc: LspTextDocumentState)
    requires
        documents_sorted(old(docs)@),
    ensures
        document_put(old(docs)@, final(docs)@, doc),
{
    let ghost before = docs@;
    let ghost k = text_bytes(doc.uri);
    let mut i: usize = 0;
    while i < docs.len() && bytes_less(uri_bytes(&docs[i].uri), uri_bytes(&doc.uri))
        invariant
            docs@ == before,
            documents_sorted(before),
            i <= before.len(),
            k == text_bytes(doc.uri),
            forall|j: int| 0 <= j < i ==> bytes_precede(text_bytes(before[j].uri), k),
        decreases before.len() - i,
    {
        i = i + 1;
    }
    let found = i < docs.len() && bytes_equal(uri_bytes(&docs[i].uri), uri_bytes(&doc.uri));
    proof {
        if i < before.len() {
            lemma_precede_total(text_bytes(before[i as int].uri), k);
        }
        assert forall|j: int| 0 <= j < before.len() && before[j].uri@ == doc.uri@ implies j == i
            && found by {
            encode_utf8_decode_utf8(before[j].uri@);
            encode_utf8_decode_utf8(doc.uri@);
            if j < i {
                lemma_precede_irreflexive(k);
            } else if j > i {
                assert(bytes_precede(text_bytes(before[i as int].uri), text_bytes(before[j].uri)));
                if !found {
                    lemma_precede_transitive(k, text_bytes(before[i as int].uri), text_bytes(before[j].uri));
                }
                lemma_precede_irreflexive(k);
            }
        }
        if found {
            encode_utf8_decode_utf8(before[i as int].uri@);
            encode_utf8_decode_utf8(doc.uri@);
            assert(holds_document(before, doc.uri@));
        }
    }
    if found {
        docs.set(i, doc);
        proof {
            assert(docs@ =~= before.update(i as int, docs@[i as int]));
            assert forall|a: int, b: int| 0 <= a < b < docs@.len() implies bytes_precede(
                text_bytes(docs@[a].uri),
                text_bytes(docs@[b].uri),
            ) by {
                assert(before[a] == docs@[a] || a == i);
                assert(before[b] == docs@[b] || b == i);
            }
        }
    } else {
        docs.insert(i, doc);
        proof {
            assert(docs@ =~= before.insert(i as int, docs@[i as int]));
            assert forall|a: int, b: int| 0 <= a < b < docs@.len() implies bytes_precede(
                text_bytes(docs@[a].uri),
                text_bytes(docs@[b].uri),
            ) by {
                if b == i {
                    assert(docs@[a] == before[a]);
                } else if a == i {
                    assert(docs@[b] == before[b - 1]);
                    if b - 1 > i {
                        lemma_precede_transitive(
                            k,
                            text_bytes(before[i as int].uri),
                            text_bytes(before[b - 1].uri),
                        );
                    }
                } else if a < i && b > i {
                    assert(docs@[a] == before[a]);
                    assert(docs@[b] == before[b - 1]);
                    lemma_precede_transitive(text_bytes(before[a].uri), k, text_bytes(before[i as int].uri));
                    if b - 1 > i {
                        lemma_precede_transitive(
                            text_bytes(before[a].uri),
                            text_bytes(before[i as int].uri),
                            text_bytes(before[b - 1].uri),
                        );
                    }
                } else if a < i {
                    assert(docs@[a] == before[a]);
                    assert(docs@[b] == before[b]);
                } else {
                    assert(docs@[a] == before[a - 1]);
                    assert(docs@[b] == before[b - 1]);
                }
            }
        }
    }
}

/// Drops the document with URI `uri` from sorted `docs` and returns it, if it is there.
pub fn drop_document(docs: &mut Vec<LspTextDocumentState>, uri: &str) -> (res: Option<
    LspTextDocumentState,
>)
    requires
        documents_sorted(old(docs)@),
    ensures
        documents_sorted(final(docs)@),
        document_dropped(old(docs)@, final(docs)@, uri@),
        res == document_at(old(docs)@, uri@),
{
    let ghost before = docs@;
    match document_position(docs, uri) {
        Some(i) => {
            let doc = docs.remove(i);
            proof {
                assert(docs@ =~= before.remove(i as int));
                lemma_document_at(before, i as int);
                assert forall|j: int| 0 <= j < before.len() && before[j].uri@ == uri@ implies docs@
                    == before.remove(j) by {
                    assert(j == i);
                }
                assert forall|a: int, b: int| 0 <= a < b < docs@.len() implies bytes_precede(
                    text_bytes(docs@[a].uri),
                    text_bytes(docs@[b].uri),
                ) by {
                    if a >= i {
                        assert(docs@[a] == before[a + 1]);
                        assert(docs@[b] == before[b + 1]);
                    } else if b >= i {
                        assert(docs@[a] == before[a]);
                        assert(docs@[b] == before[b + 1]);
                    } else {
                        assert(docs@[a] == before[a]);
                        assert(docs@[b] == before[b]);
                    }
                }
            }
            Some(doc)
        },
        None => None,
    }
}

} // verus!
