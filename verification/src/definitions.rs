use vstd::prelude::*;
use vstd::string::{StrSliceExecFns, StringSliceAdditionalSpecFns};
use vstd::utf8::is_char_boundary;

use crate::documents::{document_at, LspStyleHoverCandidate, LspTextDocumentState};
use crate::position::{names, position_after, ParserByteSpanV0, ParserRangeV0};
use crate::ranges::parser_range_for_byte_span;
use crate::shell::{folder_compatible, workspace_folder_compatible, LspShellState};
use crate::sorting::{sort_by_range, stable_sorted, SortKey};
use crate::text::{str_equal, substring};

verus! {

/// Whether a request for the selector `name` (every selector, where `name` is
/// empty) finds candidate `c`.
pub open spec fn selects(c: LspStyleHoverCandidate, name: Seq<char>) -> bool {
    c.kind@ == "selector"@ && (name.len() == 0 || c.name@ == name)
}

/// The candidates that a request for `name` finds, each paired with `uri`, in
/// order.
pub open spec fn selectors_in(
    candidates: Seq<LspStyleHoverCandidate>,
    uri: String,
    name: Seq<char>,
) -> Seq<(String, LspStyleHoverCandidate)>
    decreases candidates.len(),
{
    if candidates.len() == 0 {
        Seq::empty()
    } else if selects(candidates.last(), name) {
        selectors_in(candidates.drop_last(), uri, name).push((uri, candidates.last()))
    } else {
        selectors_in(candidates.drop_last(), uri, name)
    }
}

/// Whether document `k` of `docs` offers its selectors to a request made in
/// `workspace_folder_uri`: it is a style document (`doc_is_style`), of a
/// compatible folder, with a style summary.
pub open spec fn offers_definitions(
    docs: Seq<LspTextDocumentState>,
    doc_is_style: Seq<bool>,
    workspace_folder_uri: Option<Seq<char>>,
    k: int,
) -> bool {
    doc_is_style[k] && folder_compatible(workspace_folder_uri, docs[k]) && docs[k].style_summary is Some
}

/// The selector definitions that the documents numbered below `n` offer for
/// `name`, document by document.
pub open spec fn definitions_upto(
    docs: Seq<LspTextDocumentState>,
    doc_is_style: Seq<bool>,
    name: Seq<char>,
    workspace_folder_uri: Option<Seq<char>>,
    n: int,
) -> Seq<(String, LspStyleHoverCandidate)>
    decreases n,
{
    if n <= 0 {
        Seq::empty()
    } else if offers_definitions(docs, doc_is_style, workspace_folder_uri, n - 1) {
        definitions_upto(docs, doc_is_style, name, workspace_folder_uri, n - 1) + selectors_in(
            docs[n - 1].style_candidates@,
            docs[n - 1].uri,
            name,
        )
    } else {
        definitions_upto(docs, doc_is_style, name, workspace_folder_uri, n - 1)
    }
}

/// The view of an optional string.
pub open spec fn opt_str(s: Option<&str>) -> Option<Seq<char>> {
    match s {
        Some(t) => Some(t@),
        None => None,
    }
}

fn push_selectors(
    candidates: &[LspStyleHoverCandidate],
    uri: &String,
    name: &str,
    out: &mut Vec<(String, LspStyleHoverCandidate)>,
)
    ensures
        final(out)@ == old(out)@ + selectors_in(candidates@, *uri, name@),
{
    let ghost start = out@;
    let any_name = name.unicode_len() == 0;
    let mut i: usize = 0;
    assert(candidates@.subrange(0, 0) =~= Seq::<LspStyleHoverCandidate>::empty());
    assert(start + Seq::<(String, LspStyleHoverCandidate)>::empty() =~= start);
    while i < candidates.len()
        invariant
            i <= candidates@.len(),
            any_name == (name@.len() == 0),
            out@ == start + selectors_in(candidates@.subrange(0, i as int), *uri, name@),
        decreases candidates@.len() - i,
    {
        let ghost prefix = candidates@.subrange(0, i + 1);
        proof {
            assert(prefix.drop_last() =~= candidates@.subrange(0, i as int));
            assert(prefix.last() == candidates@[i as int]);
        }
        let c = &candidates[i];
        if str_equal(c.kind, "selector") && (any_name || str_equal(c.name.as_str(), name)) {
            let ghost before = out@;
            out.push((uri.clone(), c.clone()));
            assert(out@ =~= before.push((*uri, candidates@[i as int])));
        }
        i = i + 1;
    }
    assert(candidates@.subrange(0, candidates@.len() as int) =~= candidates@);
}

/// Whether `d` is a selector definition answering a request for `name`: a
/// selector, named exactly `name` unless `name` is empty.
pub open spec fn answers_request(d: (String, LspStyleHoverCandidate), name: Seq<char>) -> bool {
    &&& d.1.kind@ == "selector"@
    &&& name.len() > 0 ==> d.1.name@ == name
}

proof fn lemma_selectors_in_answer(candidates: Seq<LspStyleHoverCandidate>, uri: String, name: Seq<char>)
    ensures
        forall|j: int|
            0 <= j < selectors_in(candidates, uri, name).len() ==> answers_request(
                #[trigger] selectors_in(candidates, uri, name)[j],
                name,
            ) && selectors_in(candidates, uri, name)[j].0 == uri,
    decreases candidates.len(),
{
    if candidates.len() > 0 {
        let dl = candidates.drop_last();
        lemma_selectors_in_answer(dl, uri, name);
        let prior = selectors_in(dl, uri, name);
        let all = selectors_in(candidates, uri, name);
        assert forall|j: int| 0 <= j < all.len() implies answers_request(#[trigger] all[j], name)
            && all[j].0 == uri by {
            if j < prior.len() {
                assert(all[j] == prior[j]);
            } else {
                assert(all[j] == (uri, candidates.last()));
            }
        }
    }
}

proof fn lemma_definitions_upto_answer(
    docs: Seq<LspTextDocumentState>,
    doc_is_style: Seq<bool>,
    name: Seq<char>,
    workspace_folder_uri: Option<Seq<char>>,
    n: int,
)
    ensures
        forall|j: int|
            0 <= j < definitions_upto(docs, doc_is_style, name, workspace_folder_uri, n).len()
                ==> answers_request(
                #[trigger] definitions_upto(docs, doc_is_style, name, workspace_folder_uri, n)[j],
                name,
            ),
    decreases n,
{
    if n > 0 {
        lemma_definitions_upto_answer(docs, doc_is_style, name, workspace_folder_uri, n - 1);
        if offers_definitions(docs, doc_is_style, workspace_folder_uri, n - 1) {
            let prior = definitions_upto(docs, doc_is_style, name, workspace_folder_uri, n - 1);
            let more = selectors_in(docs[n - 1].style_candidates@, docs[n - 1].uri, name);
            lemma_selectors_in_answer(docs[n - 1].style_candidates@, docs[n - 1].uri, name);
            let all = definitions_upto(docs, doc_is_style, name, workspace_folder_uri, n);
            assert(all == prior + more);
            assert forall|j: int| 0 <= j < all.len() implies answers_request(#[trigger] all[j], name) by {
                if j < prior.len() {
                    assert(all[j] == prior[j]);
                } else {
                    assert(all[j] == more[j - prior.len()]);
                }
            }
        }
    }
}

/// Law: every definition a request for a selector finds is a selector, named
/// exactly as requested (any selector where no name is given), in the document it
/// is paired with.
pub proof fn law_definitions_answer_the_request(
    docs: Seq<LspTextDocumentState>,
    doc_is_style: Seq<bool>,
    name: Seq<char>,
    workspace_folder_uri: Option<Seq<char>>,
)
    ensures
        forall|j: int|
            0 <= j < stable_sorted(
                definitions_upto(docs, doc_is_style, name, workspace_folder_uri, docs.len() as int),
                SortKey::GroupStart,
            ).len() ==> answers_request(
                #[trigger] stable_sorted(
                    definitions_upto(docs, doc_is_style, name, workspace_folder_uri, docs.len() as int),
                    SortKey::GroupStart,
                )[j],
                name,
            ),
{
    broadcast use vstd::seq_lib::group_to_multiset_ensures;

    let all = definitions_upto(docs, doc_is_style, name, workspace_folder_uri, docs.len() as int);
    let sorted = stable_sorted(all, SortKey::GroupStart);
    lemma_definitions_upto_answer(docs, doc_is_style, name, workspace_folder_uri, docs.len() as int);
    crate::sorting::law_sorted_ranges_are_ordered_permutation(all, SortKey::GroupStart);
    assert forall|j: int| 0 <= j < sorted.len() implies answers_request(#[trigger] sorted[j], name) by {
        assert(sorted.to_multiset().count(sorted[j]) > 0);
        assert(all.to_multiset().count(sorted[j]) > 0);
        assert(all.contains(sorted[j]));
        let m = choose|m: int| 0 <= m < all.len() && all[m] == sorted[j];
        assert(answers_request(all[m], name));
    }
}

/// The selector definitions of the style documents the server holds in folders
/// compatible with `workspace_folder_uri`: those named `selector_name`, or all
/// where it is empty; ordered stably by document URI and start position.
/// `doc_is_style` tells whether each held document, in order, is a style document.
pub fn style_selector_definitions_from_open_documents(
    state: &LspShellState,
    selector_name: &str,
    workspace_folder_uri: Option<&str>,
    doc_is_style: &[bool],
) -> (res: Vec<(String, LspStyleHoverCandidate)>)
    requires
        state.wf(),
        doc_is_style@.len() == state.docs().len(),
    ensures
        res@ == stable_sorted(
            definitions_upto(
                state.docs(),
                doc_is_style@,
                selector_name@,
                opt_str(workspace_folder_uri),
                state.docs().len() as int,
            ),
            SortKey::GroupStart,
        ),
        forall|k: int|
            0 <= k < res@.len() ==> (#[trigger] res@[k]).1.kind@ == "selector"@ && (selector_name@.len()
                > 0 ==> res@[k].1.name@ == selector_name@),
{
    proof {
        law_definitions_answer_the_request(
            state.docs(),
            doc_is_style@,
            selector_name@,
            opt_str(workspace_folder_uri),
        );
    }
    let docs = state.documents();
    let mut definitions: Vec<(String, LspStyleHoverCandidate)> = Vec::new();
    let mut k: usize = 0;
    while k < docs.len()
        invariant
            k <= docs@.len(),
            docs@ == state.docs(),
            doc_is_style@.len() == docs@.len(),
            definitions@ == definitions_upto(
                docs@,
                doc_is_style@,
                selector_name@,
                opt_str(workspace_folder_uri),
                k as int,
            ),
        decreases docs@.len() - k,
    {
        let document = &docs[k];
        let offered = doc_is_style[k] && workspace_folder_compatible(workspace_folder_uri, document)
            && document.style_summary.is_some();
        if offered {
            push_selectors(
                document.style_candidates.as_slice(),
                &document.uri,
                selector_name,
                &mut definitions,
            );
        }
        k = k + 1;
    }
    sort_by_range(definitions, SortKey::GroupStart)
}

/// The selector definitions among the candidates of the style document `uri`,
/// paired with it, in order.
pub fn style_selector_definitions_from_candidates(
    uri: &String,
    candidates: &[LspStyleHoverCandidate],
) -> (res: Vec<(String, LspStyleHoverCandidate)>)
    ensures
        res@ == selectors_in(candidates@, *uri, Seq::empty()),
        forall|k: int|
            0 <= k < res@.len() ==> (#[trigger] res@[k]).1.kind@ == "selector"@ && res@[k].0 == *uri,
{
    proof {
        lemma_selectors_in_answer(candidates@, *uri, Seq::empty());
    }
    let mut res: Vec<(String, LspStyleHoverCandidate)> = Vec::new();
    proof {
        reveal_strlit("");
        assert(""@ =~= Seq::<char>::empty());
    }
    push_selectors(candidates, uri, "", &mut res);
    assert(Seq::<(String, LspStyleHoverCandidate)>::empty() + selectors_in(candidates@, *uri, ""@)
        =~= selectors_in(candidates@, *uri, ""@));
    res
}

/// The first style document (`doc_is_style`, in the order the server holds them)
/// of a folder compatible with `workspace_folder_uri`, by its number.
pub fn first_style_document_for_workspace(
    state: &LspShellState,
    workspace_folder_uri: Option<&str>,
    doc_is_style: &[bool],
) -> (res: Option<usize>)
    requires
        state.wf(),
        doc_is_style@.len() == state.docs().len(),
    ensures
        match res {
            Some(k) => k < state.docs().len() && doc_is_style@[k as int] && folder_compatible(
                opt_str(workspace_folder_uri),
                state.docs()[k as int],
            ) && forall|j: int|
                0 <= j < k ==> !(doc_is_style@[j] && folder_compatible(
                    opt_str(workspace_folder_uri),
                    #[trigger] state.docs()[j],
                )),
            None => forall|j: int|
                0 <= j < state.docs().len() ==> !(doc_is_style@[j] && folder_compatible(
                    opt_str(workspace_folder_uri),
                    #[trigger] state.docs()[j],
                )),
        },
{
    let docs = state.documents();
    let mut k: usize = 0;
    while k < docs.len()
        invariant
            k <= docs@.len(),
            docs@ == state.docs(),
            doc_is_style@.len() == docs@.len(),
            forall|j: int|
                0 <= j < k ==> !(doc_is_style@[j] && folder_compatible(
                    opt_str(workspace_folder_uri),
                    #[trigger] docs@[j],
                )),
        decreases docs@.len() - k,
    {
        if doc_is_style[k] && workspace_folder_compatible(workspace_folder_uri, &docs[k]) {
            return Some(k);
        }
        k = k + 1;
    }
    None
}

/// The style document that a missing-selector diagnostic of a source reference is
/// checked against: the reference's target style document where it has one (held
/// by the server, a style document, `target_is_style`, in a compatible folder),
/// else the first style document of a compatible folder.
pub fn source_selector_diagnostic_target<'a>(
    state: &'a LspShellState,
    target_style_uri: Option<&str>,
    target_is_style: bool,
    workspace_folder_uri: Option<&str>,
    doc_is_style: &[bool],
) -> (res: Option<&'a LspTextDocumentState>)
    requires
        state.wf(),
        doc_is_style@.len() == state.docs().len(),
    ensures
        target_style_uri is Some ==> match res {
            Some(d) => document_at(state.docs(), target_style_uri->0@) == Some(*d) && target_is_style
                && folder_compatible(opt_str(workspace_folder_uri), *d),
            None => match document_at(state.docs(), target_style_uri->0@) {
                Some(d) => !(target_is_style && folder_compatible(opt_str(workspace_folder_uri), d)),
                None => true,
            },
        },
        target_style_uri is None ==> match res {
            Some(d) => exists|k: int|
                0 <= k < state.docs().len() && state.docs()[k] == *d && doc_is_style@[k]
                    && folder_compatible(opt_str(workspace_folder_uri), state.docs()[k]) && forall|j: int|
                    0 <= j < k ==> !(doc_is_style@[j] && folder_compatible(
                        opt_str(workspace_folder_uri),
                        #[trigger] state.docs()[j],
                    )),
            None => forall|j: int|
                0 <= j < state.docs().len() ==> !(doc_is_style@[j] && folder_compatible(
                    opt_str(workspace_folder_uri),
                    #[trigger] state.docs()[j],
                )),
        },
{
    match target_style_uri {
        Some(target) => {
            let document = state.document(target)?;
            if !target_is_style || !workspace_folder_compatible(workspace_folder_uri, document) {
                return None;
            }
            Some(document)
        },
        None => {
            let k = first_style_document_for_workspace(state, workspace_folder_uri, doc_is_style)?;
            Some(&state.documents()[k])
        },
    }
}

/// The numbers, in increasing order, of the source documents (not `doc_is_style`)
/// that the server holds in folders compatible with `workspace_folder_uri`.
pub open spec fn source_documents_upto(
    docs: Seq<LspTextDocumentState>,
    doc_is_style: Seq<bool>,
    workspace_folder_uri: Option<Seq<char>>,
    k: int,
) -> Seq<usize>
    decreases k,
{
    if k <= 0 {
        Seq::empty()
    } else {
        let prior = source_documents_upto(docs, doc_is_style, workspace_folder_uri, k - 1);
        if !doc_is_style[k - 1] && folder_compatible(workspace_folder_uri, docs[k - 1]) {
            prior.push((k - 1) as usize)
        } else {
            prior
        }
    }
}

/// The source documents whose references a request made in `workspace_folder_uri`
/// reads (see `source_documents_upto`), by their numbers.
pub fn source_documents_for_workspace(
    state: &LspShellState,
    workspace_folder_uri: Option<&str>,
    doc_is_style: &[bool],
) -> (res: Vec<usize>)
    requires
        state.wf(),
        doc_is_style@.len() == state.docs().len(),
    ensures
        res@ == source_documents_upto(
            state.docs(),
            doc_is_style@,
            opt_str(workspace_folder_uri),
            state.docs().len() as int,
        ),
{
    let docs = state.documents();
    let mut res: Vec<usize> = Vec::new();
    let mut k: usize = 0;
    while k < docs.len()
        invariant
            k <= docs@.len(),
            docs@ == state.docs(),
            doc_is_style@.len() == docs@.len(),
            res@ == source_documents_upto(docs@, doc_is_style@, opt_str(workspace_folder_uri), k as int),
        decreases docs@.len() - k,
    {
        if !doc_is_style[k] && workspace_folder_compatible(workspace_folder_uri, &docs[k]) {
            res.push(k);
        }
        k = k + 1;
    }
    res
}

/// The name a source reference stands for: the selector name it was resolved to,
/// or else the text of its span.
pub open spec fn reference_name(
    source: Seq<u8>,
    span: ParserByteSpanV0,
    selector_name: Option<String>,
) -> Seq<u8> {
    match selector_name {
        Some(n) => crate::registry::text_bytes(n),
        None => source.subrange(span.start as int, span.end as int),
    }
}

/// The candidate for a selector reference found in a source text: an exact or a
/// prefix reference (`prefix_match`) at the range of its byte span, named by the
/// selector it was resolved to or else by the text of the span, and aimed at
/// `target_style_uri`. Without a resolved name the span must lie on character
/// boundaries of the text.
pub fn source_reference_candidate(
    source: &str,
    byte_span: ParserByteSpanV0,
    selector_name: Option<String>,
    prefix_match: bool,
    target_style_uri: Option<String>,
) -> (res: LspStyleHoverCandidate)
    requires
        selector_name is None ==> byte_span.start <= byte_span.end && is_char_boundary(
            source.spec_bytes(),
            byte_span.start as int,
        ) && is_char_boundary(source.spec_bytes(), byte_span.end as int),
    ensures
        res.kind@ == if prefix_match {
            "sourceSelectorPrefixReference"@
        } else {
            "sourceSelectorReference"@
        },
        crate::registry::text_bytes(res.name) == reference_name(
            source.spec_bytes(),
            byte_span,
            selector_name,
        ),
        names(
            res.range.start,
            position_after(
                source.spec_bytes(),
                if byte_span.start < source.spec_bytes().len() {
                    byte_span.start as int
                } else {
                    source.spec_bytes().len() as int
                },
            ),
        ),
        names(
            res.range.end,
            position_after(
                source.spec_bytes(),
                if byte_span.end < source.spec_bytes().len() {
                    byte_span.end as int
                } else {
                    source.spec_bytes().len() as int
                },
            ),
        ),
        res.source@ == "omenaQuerySourceSyntaxIndex"@,
        res.target_style_uri == target_style_uri,
        res.namespace is None,
{
    let name = match selector_name {
        Some(n) => n,
        None => substring(source, byte_span.start, byte_span.end),
    };
    let range: ParserRangeV0 = parser_range_for_byte_span(source, byte_span);
    LspStyleHoverCandidate {
        kind: if prefix_match {
            "sourceSelectorPrefixReference"
        } else {
            "sourceSelectorReference"
        },
        name,
        range,
        source: "omenaQuerySourceSyntaxIndex",
        target_style_uri,
        namespace: None,
    }
}

/// Whether two definitions are one: in the same document, with the same name and
/// range, and (`with_kind`) of the same kind.
pub open spec fn same_definition(
    a: (String, LspStyleHoverCandidate),
    b: (String, LspStyleHoverCandidate),
    with_kind: bool,
) -> bool {
    &&& a.0@ == b.0@
    &&& a.1.name@ == b.1.name@
    &&& a.1.range == b.1.range
    &&& with_kind ==> a.1.kind@ == b.1.kind@
}

/// `s` with every definition dropped that is one with the definition kept just
/// before it.
pub open spec fn dedup_definitions(s: Seq<(String, LspStyleHoverCandidate)>, with_kind: bool) -> Seq<
    (String, LspStyleHoverCandidate),
>
    decreases s.len(),
{
    if s.len() == 0 {
        s
    } else {
        let kept = dedup_definitions(s.drop_last(), with_kind);
        if kept.len() > 0 && same_definition(kept.last(), s.last(), with_kind) {
            kept
        } else {
            kept.push(s.last())
        }
    }
}

fn is_same_definition(
    a: &(String, LspStyleHoverCandidate),
    b: &(String, LspStyleHoverCandidate),
    with_kind: bool,
) -> (res: bool)
    ensures
        res == same_definition(*a, *b, with_kind),
{
    str_equal(a.0.as_str(), b.0.as_str()) && str_equal(a.1.name.as_str(), b.1.name.as_str())
        && a.1.range.start.line == b.1.range.start.line && a.1.range.start.character
        == b.1.range.start.character && a.1.range.end.line == b.1.range.end.line
        && a.1.range.end.character == b.1.range.end.character && (!with_kind || str_equal(
        a.1.kind,
        b.1.kind,
    ))
}

fn sort_and_dedup(definitions: Vec<(String, LspStyleHoverCandidate)>, key: SortKey, with_kind: bool) -> (res:
    Vec<(String, LspStyleHoverCandidate)>)
    ensures
        res@ == dedup_definitions(stable_sorted(definitions@, key), with_kind),
{
    let sorted = sort_by_range(definitions, key);
    let ghost all = sorted@;
    let n = sorted.len();
    let mut rest = sorted;
    let mut res: Vec<(String, LspStyleHoverCandidate)> = Vec::new();
    let mut i: usize = 0;
    assert(all.subrange(0, 0) =~= Seq::<(String, LspStyleHoverCandidate)>::empty());
    assert(all.subrange(0, all.len() as int) =~= all);
    while rest.len() > 0
        invariant
            i <= all.len(),
            all.len() == n,
            rest@ == all.subrange(i as int, all.len() as int),
            res@ == dedup_definitions(all.subrange(0, i as int), with_kind),
        decreases rest@.len(),
    {
        let x = rest.remove(0);
        proof {
            let prefix = all.subrange(0, i + 1);
            assert(prefix.drop_last() =~= all.subrange(0, i as int));
            assert(prefix.last() == x);
            assert(rest@ =~= all.subrange(i + 1, all.len() as int));
        }
        let repeat = res.len() > 0 && is_same_definition(&res[res.len() - 1], &x, with_kind);
        if !repeat {
            res.push(x);
        }
        i = i + 1;
    }
    assert(all.subrange(0, i as int) =~= all);
    res
}

/// Selector definitions found for source references, sorted stably by document URI
/// (byte order), start position and name, each definition once where repeats
/// come together.
pub fn sort_and_dedup_selector_definitions(definitions: Vec<(String, LspStyleHoverCandidate)>) -> (res:
    Vec<(String, LspStyleHoverCandidate)>)
    ensures
        res@ == dedup_definitions(stable_sorted(definitions@, SortKey::GroupStartName), false),
{
    sort_and_dedup(definitions, SortKey::GroupStartName, false)
}

/// Sass symbol declarations, sorted stably by document URI (byte order) and start
/// position, each declaration once (by kind too) where repeats come together.
pub fn sort_and_dedup_symbol_declarations(definitions: Vec<(String, LspStyleHoverCandidate)>) -> (res:
    Vec<(String, LspStyleHoverCandidate)>)
    ensures
        res@ == dedup_definitions(stable_sorted(definitions@, SortKey::GroupStart), true),
{
    sort_and_dedup(definitions, SortKey::GroupStart, true)
}

/// What identifies a selector definition when definitions are matched: its
/// document, name and range.
#[derive(Debug, Clone, PartialEq, Eq)]
pub struct DefinitionIdentity {
    pub uri: String,
    pub name: String,
    pub range: ParserRangeV0,
}

/// Whether `identity` identifies the definition `d`.
pub open spec fn identifies(identity: DefinitionIdentity, d: (String, LspStyleHoverCandidate)) -> bool {
    identity.uri@ == d.0@ && identity.name@ == d.1.name@ && identity.range == d.1.range
}

/// Whether one of `identities` identifies the definition `d`.
pub open spec fn identified(identities: Seq<DefinitionIdentity>, d: (String, LspStyleHoverCandidate)) -> bool {
    exists|j: int| 0 <= j < identities.len() && identifies(#[trigger] identities[j], d)
}

/// The definitions of `s` that one of `identities` identifies, in order.
pub open spec fn identified_definitions(
    s: Seq<(String, LspStyleHoverCandidate)>,
    identities: Seq<DefinitionIdentity>,
) -> Seq<(String, LspStyleHoverCandidate)>
    decreases s.len(),
{
    if s.len() == 0 {
        s
    } else {
        let kept = identified_definitions(s.drop_last(), identities);
        if identified(identities, s.last()) {
            kept.push(s.last())
        } else {
            kept
        }
    }
}

/// Whether one of the definitions lies in the document `uri`.
pub fn definitions_in_document(definitions: &[(String, LspStyleHoverCandidate)], uri: &str) -> (res:
    bool)
    ensures
        res == exists|i: int| 0 <= i < definitions@.len() && (#[trigger] definitions@[i]).0@ == uri@,
{
    let mut i: usize = 0;
    while i < definitions.len()
        invariant
            i <= definitions@.len(),
            forall|k: int| 0 <= k < i ==> (#[trigger] definitions@[k]).0@ != uri@,
        decreases definitions@.len() - i,
    {
        if str_equal(definitions[i].0.as_str(), uri) {
            return true;
        }
        i = i + 1;
    }
    false
}

fn is_identified(identities: &[DefinitionIdentity], d: &(String, LspStyleHoverCandidate)) -> (res: bool)
    ensures
        res == identified(identities@, *d),
{
    let mut j: usize = 0;
    while j < identities.len()
        invariant
            j <= identities@.len(),
            forall|k: int| 0 <= k < j ==> !identifies(#[trigger] identities@[k], *d),
        decreases identities@.len() - j,
    {
        let id = &identities[j];
        if str_equal(id.uri.as_str(), d.0.as_str()) && str_equal(id.name.as_str(), d.1.name.as_str())
            && id.range.start.line == d.1.range.start.line && id.range.start.character
            == d.1.range.start.character && id.range.end.line == d.1.range.end.line
            && id.range.end.character == d.1.range.end.character {
            return true;
        }
        j = j + 1;
    }
    false
}

/// The definitions that one of `identities` identifies, in their order.
pub fn retain_identified_definitions(
    definitions: Vec<(String, LspStyleHoverCandidate)>,
    identities: &[DefinitionIdentity],
) -> (res: Vec<(String, LspStyleHoverCandidate)>)
    ensures
        res@ == identified_definitions(definitions@, identities@),
{
    let ghost all = definitions@;
    let n = definitions.len();
    let mut rest = definitions;
    let mut res: Vec<(String, LspStyleHoverCandidate)> = Vec::new();
    let mut i: usize = 0;
    assert(all.subrange(0, 0) =~= Seq::<(String, LspStyleHoverCandidate)>::empty());
    assert(all.subrange(0, all.len() as int) =~= all);
    while rest.len() > 0
        invariant
            i <= all.len(),
            all.len() == n,
            rest@ == all.subrange(i as int, all.len() as int),
            res@ == identified_definitions(all.subrange(0, i as int), identities@),
        decreases rest@.len(),
    {
        let x = rest.remove(0);
        proof {
            let prefix = all.subrange(0, i + 1);
            assert(prefix.drop_last() =~= all.subrange(0, i as int));
            assert(prefix.last() == x);
            assert(rest@ =~= all.subrange(i + 1, all.len() as int));
        }
        if is_identified(identities, &x) {
            res.push(x);
        }
        i = i + 1;
    }
    assert(all.subrange(0, i as int) =~= all);
    res
}

} // verus!
