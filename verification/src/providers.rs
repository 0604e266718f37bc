use vstd::prelude::*;
use vstd::string::StringSliceAdditionalSpecFns;
use vstd::utf8::encode_utf8;

use crate::documents::{clone_opt_string, document_at, LspStyleHoverCandidate, LspTextDocumentState};
use crate::locations::LspLocation;
use crate::position::{ParserPositionV0, ParserRangeV0};
use crate::ranges::{parser_range_contains_position, range_contains};
use crate::shell::LspShellState;
use crate::sorting::{lemma_stable_sorted_len, sort_by_range, stable_sorted, SortKey};
use crate::registry::text_bytes;
use crate::text::str_equal;
use crate::uri_set::{members, strings_sorted, UriSet};
use vstd::string::StringExecFns;

verus! {

/// The candidates whose range contains `position`, in order.
pub open spec fn candidates_containing(
    candidates: Seq<LspStyleHoverCandidate>,
    position: ParserPositionV0,
) -> Seq<LspStyleHoverCandidate> {
    candidates.filter(|c: LspStyleHoverCandidate| range_contains(c.range, position))
}

/// Copies of the candidates whose range contains `position`, in order.
pub fn candidates_at_position(candidates: &[LspStyleHoverCandidate], position: ParserPositionV0) -> (res:
    Vec<LspStyleHoverCandidate>)
    ensures
        res@ == candidates_containing(candidates@, position),
{
    let mut res: Vec<LspStyleHoverCandidate> = Vec::new();
    let mut i: usize = 0;
    assert(candidates@.subrange(0, 0) =~= Seq::<LspStyleHoverCandidate>::empty());
    while i < candidates.len()
        invariant
            i <= candidates@.len(),
            res@ == candidates_containing(candidates@.subrange(0, i as int), position),
        decreases candidates@.len() - i,
    {
        let ghost prefix = candidates@.subrange(0, i + 1);
        assert(prefix.drop_last() =~= candidates@.subrange(0, i as int));
        assert(prefix.last() == candidates@[i as int]);
        assert(candidates_containing(prefix, position) == if range_contains(
            candidates@[i as int].range,
            position,
        ) {
            candidates_containing(prefix.drop_last(), position).push(candidates@[i as int])
        } else {
            candidates_containing(prefix.drop_last(), position)
        }) by {
            reveal_with_fuel(Seq::filter, 1);
        }
        if parser_range_contains_position(&candidates[i].range, position) {
            res.push(candidates[i].clone());
        }
        i = i + 1;
    }
    assert(candidates@.subrange(0, candidates@.len() as int) =~= candidates@);
    res
}

/// The index of the first candidate whose range contains `position`.
pub fn first_candidate_at(candidates: &[LspStyleHoverCandidate], position: ParserPositionV0) -> (res:
    Option<usize>)
    ensures
        match res {
            Some(i) => i < candidates@.len() && range_contains(candidates@[i as int].range, position)
                && forall|j: int| 0 <= j < i ==> !range_contains(#[trigger] candidates@[j].range, position),
            None => forall|j: int|
                0 <= j < candidates@.len() ==> !range_contains(#[trigger] candidates@[j].range, position),
        },
{
    let mut i: usize = 0;
    while i < candidates.len()
        invariant
            i <= candidates@.len(),
            forall|j: int| 0 <= j < i ==> !range_contains(#[trigger] candidates@[j].range, position),
        decreases candidates@.len() - i,
    {
        if parser_range_contains_position(&candidates[i].range, position) {
            return Some(i);
        }
        i = i + 1;
    }
    None
}

/// The answer to a style hover-candidates request.
#[derive(Debug, Clone, PartialEq, Eq)]
pub struct LspStyleHoverCandidatesResult {
    pub schema_version: &'static str,
    pub product: &'static str,
    pub document_uri: String,
    pub workspace_folder_uri: Option<String>,
    pub language: Option<&'static str>,
    pub query_position: Option<ParserPositionV0>,
    pub candidate_count: usize,
    pub candidates: Vec<LspStyleHoverCandidate>,
}

/// A hover-candidates answer with no language and no candidates.
pub fn empty_style_hover_candidates_result(
    document_uri: String,
    workspace_folder_uri: Option<String>,
    query_position: Option<ParserPositionV0>,
) -> (res: LspStyleHoverCandidatesResult)
    ensures
        res.schema_version@ == "0"@,
        res.product@ == "omena-lsp-server.style-hover-candidates"@,
        res.document_uri == document_uri,
        res.workspace_folder_uri == workspace_folder_uri,
        res.language is None,
        res.query_position == query_position,
        res.candidate_count == 0,
        res.candidates@.len() == 0,
{
    LspStyleHoverCandidatesResult {
        schema_version: "0",
        product: "omena-lsp-server.style-hover-candidates",
        document_uri,
        workspace_folder_uri,
        language: None,
        query_position,
        candidate_count: 0,
        candidates: Vec::new(),
    }
}

/// The style candidates of the document with URI `document_uri`: none where the
/// server does not hold it or has no style summary for it; otherwise those whose
/// range contains `query_position`, or all of them where no position is given.
pub fn resolve_style_hover_candidates(
    state: &LspShellState,
    document_uri: String,
    query_position: Option<ParserPositionV0>,
) -> (res: LspStyleHoverCandidatesResult)
    requires
        state.wf(),
    ensures
        res.schema_version@ == "0"@,
        res.product@ == "omena-lsp-server.style-hover-candidates"@,
        res.document_uri == document_uri,
        res.query_position == query_position,
        res.candidate_count == res.candidates@.len(),
        match document_at(state.docs(), document_uri@) {
            None => res.workspace_folder_uri is None && res.language is None
                && res.candidates@.len() == 0,
            Some(d) => {
                &&& res.workspace_folder_uri == d.workspace_folder_uri
                &&& match d.style_summary {
                    None => res.language is None && res.candidates@.len() == 0,
                    Some(summary) => {
                        &&& res.language == Some(summary.language)
                        &&& res.candidates@ == match query_position {
                            Some(p) => candidates_containing(d.style_candidates@, p),
                            None => d.style_candidates@,
                        }
                    },
                }
            },
        },
{
    let document = match state.document(document_uri.as_str()) {
        Some(d) => d,
        None => return empty_style_hover_candidates_result(document_uri, None, query_position),
    };
    let language = match &document.style_summary {
        Some(summary) => summary.language,
        None => {
            return empty_style_hover_candidates_result(
                document_uri,
                clone_opt_string(&document.workspace_folder_uri),
                query_position,
            );
        },
    };
    let candidates = match query_position {
        Some(position) => candidates_at_position(document.style_candidates.as_slice(), position),
        None => copy_candidates(document.style_candidates.as_slice()),
    };
    let count = candidates.len();
    LspStyleHoverCandidatesResult {
        schema_version: "0",
        product: "omena-lsp-server.style-hover-candidates",
        document_uri,
        workspace_folder_uri: clone_opt_string(&document.workspace_folder_uri),
        language: Some(language),
        query_position,
        candidate_count: count,
        candidates,
    }
}

/// Copies of all the candidates, in order.
fn copy_candidates(candidates: &[LspStyleHoverCandidate]) -> (res: Vec<
    LspStyleHoverCandidate,
>)
    ensures
        res@ == candidates@,
{
    let mut res: Vec<LspStyleHoverCandidate> = Vec::new();
    let mut i: usize = 0;
    while i < candidates.len()
        invariant
            i <= candidates@.len(),
            res@ == candidates@.subrange(0, i as int),
        decreases candidates@.len() - i,
    {
        res.push(candidates[i].clone());
        i = i + 1;
        assert(res@ =~= candidates@.subrange(0, i as int));
    }
    assert(candidates@.subrange(0, candidates@.len() as int) =~= candidates@);
    res
}

/// A completion item offered inside a style document.
#[derive(Debug, Clone, PartialEq, Eq)]
pub struct StyleCompletionItem {
    pub label: String,
    pub kind: u8,
    pub detail: &'static str,
}

/// The completion entry a style candidate offers: `.name` (kind 7) for a selector,
/// the name (kind 10) for a custom property declaration, nothing otherwise.
pub open spec fn completion_entry(c: LspStyleHoverCandidate) -> Option<(Seq<char>, u8, &'static str)> {
    if c.kind@ == "selector"@ {
        Some((seq!['.'] + c.name@, 7u8, "CSS Module selector"))
    } else if c.kind@ == "customPropertyDeclaration"@ {
        Some((c.name@, 10u8, "CSS custom property"))
    } else {
        None
    }
}

/// The completion entries of `candidates` in order, each label kept only the first
/// time it comes.
pub open spec fn completion_entries(candidates: Seq<LspStyleHoverCandidate>) -> Seq<
    (Seq<char>, u8, &'static str),
>
    decreases candidates.len(),
{
    if candidates.len() == 0 {
        Seq::empty()
    } else {
        let prior = completion_entries(candidates.drop_last());
        match completion_entry(candidates.last()) {
            Some(e) => if exists|j: int| 0 <= j < prior.len() && prior[j].0 == e.0 {
                prior
            } else {
                prior.push(e)
            },
            None => prior,
        }
    }
}

/// The content of a completion item.
pub open spec fn item_entry(item: StyleCompletionItem) -> (Seq<char>, u8, &'static str) {
    (item.label@, item.kind, item.detail)
}

/// The completion items a style document offers (see `completion_entries`).
pub fn style_completion_items(candidates: &[LspStyleHoverCandidate]) -> (res: Vec<StyleCompletionItem>)
    ensures
        res@.map_values(|item: StyleCompletionItem| item_entry(item)) == completion_entries(candidates@),
{
    let mut res: Vec<StyleCompletionItem> = Vec::new();
    let mut i: usize = 0;
    assert(candidates@.subrange(0, 0) =~= Seq::<LspStyleHoverCandidate>::empty());
    proof {
        reveal_strlit(".");
    }
    while i < candidates.len()
        invariant
            i <= candidates@.len(),
            "."@ == seq!['.'],
            res@.map_values(|item: StyleCompletionItem| item_entry(item)) == completion_entries(
                candidates@.subrange(0, i as int),
            ),
        decreases candidates@.len() - i,
    {
        let ghost prefix = candidates@.subrange(0, i + 1);
        let ghost prior = res@.map_values(|item: StyleCompletionItem| item_entry(item));
        assert(prefix.drop_last() =~= candidates@.subrange(0, i as int));
        assert(prefix.last() == candidates@[i as int]);
        let candidate = &candidates[i];
        let entry: Option<StyleCompletionItem> = if str_equal(candidate.kind, "selector") {
            let mut label = ".".to_owned();
            label.append(candidate.name.as_str());
            Some(StyleCompletionItem { label, kind: 7, detail: "CSS Module selector" })
        } else if str_equal(candidate.kind, "customPropertyDeclaration") {
            Some(StyleCompletionItem { label: candidate.name.clone(), kind: 10, detail: "CSS custom property" })
        } else {
            None
        };
        if let Some(item) = entry {
            let mut seen = false;
            let mut j: usize = 0;
            while j < res.len()
                invariant
                    j <= res@.len(),
                    prior == res@.map_values(|item: StyleCompletionItem| item_entry(item)),
                    seen == exists|k: int| 0 <= k < j && prior[k].0 == item.label@,
                decreases res@.len() - j,
            {
                if str_equal(res[j].label.as_str(), item.label.as_str()) {
                    seen = true;
                }
                proof {
                    assert(prior[j as int] == item_entry(res@[j as int]));
                    if seen && !(exists|k: int| 0 <= k < j && prior[k].0 == item.label@) {
                        assert(prior[j as int].0 == item.label@);
                    }
                }
                j = j + 1;
            }
            if !seen {
                res.push(item);
                proof {
                    assert(res@.map_values(|item: StyleCompletionItem| item_entry(item)) =~= prior.push(
                        item_entry(item),
                    ));
                }
            }
        }
        i = i + 1;
    }
    assert(candidates@.subrange(0, candidates@.len() as int) =~= candidates@);
    res
}

/// The candidate a style definition request at candidate `index` resolves to: for a
/// custom property reference, the first declaration of the same name if there is
/// one; otherwise the candidate itself.
pub open spec fn style_definition_index(candidates: Seq<LspStyleHoverCandidate>, index: int) -> int {
    if candidates[index].kind@ == "customPropertyReference"@ && exists|j: int|
        0 <= j < candidates.len() && is_declaration_of(candidates[j], candidates[index].name@) {
        choose|j: int|
            0 <= j < candidates.len() && is_declaration_of(candidates[j], candidates[index].name@)
                && forall|k: int| 0 <= k < j ==> !is_declaration_of(candidates[k], candidates[index].name@)
    } else {
        index
    }
}

/// Whether `c` declares the custom property `name`.
pub open spec fn is_declaration_of(c: LspStyleHoverCandidate, name: Seq<char>) -> bool {
    c.kind@ == "customPropertyDeclaration"@ && c.name@ == name
}

/// The index of the candidate that a definition request on candidate `index`
/// resolves to (see `style_definition_index`).
pub fn style_definition_target(candidates: &[LspStyleHoverCandidate], index: usize) -> (res: usize)
    requires
        index < candidates@.len(),
    ensures
        res < candidates@.len(),
        candidates@[index as int].kind@ == "customPropertyReference"@ ==> (is_declaration_of(
            candidates@[res as int],
            candidates@[index as int].name@,
        ) && forall|k: int|
            0 <= k < res ==> !is_declaration_of(#[trigger] candidates@[k], candidates@[index as int].name@))
            || (res == index && forall|k: int|
            0 <= k < candidates@.len() ==> !is_declaration_of(
                #[trigger] candidates@[k],
                candidates@[index as int].name@,
            )),
        candidates@[index as int].kind@ != "customPropertyReference"@ ==> res == index,
{
    let candidate = &candidates[index];
    if !str_equal(candidate.kind, "customPropertyReference") {
        return index;
    }
    let mut j: usize = 0;
    while j < candidates.len()
        invariant
            j <= candidates@.len(),
            index < candidates@.len(),
            candidate == candidates@[index as int],
            candidate.kind@ == "customPropertyReference"@,
            forall|k: int| 0 <= k < j ==> !is_declaration_of(#[trigger] candidates@[k], candidate.name@),
        decreases candidates@.len() - j,
    {
        if str_equal(candidates[j].kind, "customPropertyDeclaration") && str_equal(
            candidates[j].name.as_str(),
            candidate.name.as_str(),
        ) {
            return j;
        }
        j = j + 1;
    }
    index
}

/// Whether `kind` names a custom property candidate: its bytes start with those of
/// `customProperty`.
pub open spec fn is_custom_property_kind(kind: &str) -> bool {
    "customProperty".spec_bytes().len() <= kind.spec_bytes().len() && kind.spec_bytes().subrange(
        0,
        "customProperty".spec_bytes().len() as int,
    ) == "customProperty".spec_bytes()
}

/// Whether the bytes of `s` start with those of `prefix`.
pub fn str_starts_with(s: &str, prefix: &str) -> (res: bool)
    ensures
        res == (prefix.spec_bytes().len() <= s.spec_bytes().len() && s.spec_bytes().subrange(
            0,
            prefix.spec_bytes().len() as int,
        ) == prefix.spec_bytes()),
{
    let a = s.as_bytes();
    let b = prefix.as_bytes();
    if b.len() > a.len() {
        return false;
    }
    let mut i: usize = 0;
    while i < b.len()
        invariant
            a@ == s.spec_bytes(),
            b@ == prefix.spec_bytes(),
            b@.len() <= a@.len(),
            i <= b@.len(),
            forall|j: int| 0 <= j < i ==> a@[j] == b@[j],
        decreases b@.len() - i,
    {
        if a[i] != b[i] {
            assert(a@.subrange(0, b@.len() as int)[i as int] != b@[i as int]);
            return false;
        }
        i = i + 1;
    }
    assert(a@.subrange(0, b@.len() as int) =~= b@);
    true
}

/// Whether a custom-property references request on `candidate` lists `target`:
/// same name, and a reference, or a declaration when declarations are included.
pub open spec fn lists_custom_property(
    candidate: LspStyleHoverCandidate,
    target: LspStyleHoverCandidate,
    include_declaration: bool,
) -> bool {
    target.name@ == candidate.name@ && (target.kind@ == "customPropertyReference"@ || (
    include_declaration && target.kind@ == "customPropertyDeclaration"@))
}

/// The ranges of `candidates` that `keep` selects, in order.
pub open spec fn ranges_where(
    candidates: Seq<LspStyleHoverCandidate>,
    keep: spec_fn(LspStyleHoverCandidate) -> bool,
) -> Seq<ParserRangeV0> {
    candidates.filter(keep).map_values(|c: LspStyleHoverCandidate| c.range)
}

/// The references to the custom property of candidate `index`, by range, sorted
/// stably by start position.
pub fn custom_property_reference_ranges(
    candidates: &[LspStyleHoverCandidate],
    index: usize,
    include_declaration: bool,
) -> (res: Vec<ParserRangeV0>)
    requires
        index < candidates@.len(),
    ensures
        res@ == stable_sorted(
            ranges_where(
                candidates@,
                |t: LspStyleHoverCandidate|
                    lists_custom_property(candidates@[index as int], t, include_declaration),
            ),
            SortKey::Start,
        ),
{
    let candidate = &candidates[index];
    let ghost keep = |t: LspStyleHoverCandidate|
        lists_custom_property(candidates@[index as int], t, include_declaration);
    let mut ranges: Vec<ParserRangeV0> = Vec::new();
    let mut i: usize = 0;
    assert(candidates@.subrange(0, 0) =~= Seq::<LspStyleHoverCandidate>::empty());
    while i < candidates.len()
        invariant
            i <= candidates@.len(),
            index < candidates@.len(),
            candidate == candidates@[index as int],
            keep == (|t: LspStyleHoverCandidate|
                lists_custom_property(candidates@[index as int], t, include_declaration)),
            ranges@ == ranges_where(candidates@.subrange(0, i as int), keep),
        decreases candidates@.len() - i,
    {
        let ghost prefix = candidates@.subrange(0, i + 1);
        assert(prefix.drop_last() =~= candidates@.subrange(0, i as int));
        assert(prefix.last() == candidates@[i as int]);
        let target = &candidates[i];
        let listed = str_equal(target.name.as_str(), candidate.name.as_str()) && (str_equal(
            target.kind,
            "customPropertyReference",
        ) || (include_declaration && str_equal(target.kind, "customPropertyDeclaration")));
        proof {
            reveal_with_fuel(Seq::filter, 1);
            assert(listed == keep(candidates@[i as int]));
            if listed {
                assert(prefix.filter(keep) == prefix.drop_last().filter(keep).push(candidates@[i as int]));
                assert(prefix.filter(keep).map_values(|c: LspStyleHoverCandidate| c.range) =~= prefix.drop_last().filter(
                    keep,
                ).map_values(|c: LspStyleHoverCandidate| c.range).push(target.range));
            } else {
                assert(prefix.filter(keep) == prefix.drop_last().filter(keep));
            }
        }
        if listed {
            ranges.push(target.range);
        }
        i = i + 1;
    }
    assert(candidates@.subrange(0, candidates@.len() as int) =~= candidates@);
    sort_by_range(ranges, SortKey::Start)
}

/// The edits that rename the custom property of candidate `index` to `new_name`:
/// one per candidate of the same name whose kind is a custom property kind, sorted
/// stably by start and end; `None` where the candidate is not a custom property
/// reference or declaration, or nothing is to be edited.
pub fn custom_property_rename_ranges(
    candidates: &[LspStyleHoverCandidate],
    index: usize,
) -> (res: Option<Vec<ParserRangeV0>>)
    requires
        index < candidates@.len(),
    ensures
        ({
            let c = candidates@[index as int];
            let targets = stable_sorted(
                ranges_where(
                    candidates@,
                    |t: LspStyleHoverCandidate| t.name@ == c.name@ && is_custom_property_kind(t.kind),
                ),
                SortKey::StartEnd,
            );
            if (c.kind@ == "customPropertyReference"@ || c.kind@ == "customPropertyDeclaration"@)
                && targets.len() > 0 {
                res matches Some(r) && r@ == targets
            } else {
                res is None
            }
        }),
{
    let candidate = &candidates[index];
    if !(str_equal(candidate.kind, "customPropertyReference") || str_equal(
        candidate.kind,
        "customPropertyDeclaration",
    )) {
        return None;
    }
    let ghost keep = |t: LspStyleHoverCandidate|
        t.name@ == candidates@[index as int].name@ && is_custom_property_kind(t.kind);
    let mut ranges: Vec<ParserRangeV0> = Vec::new();
    let mut i: usize = 0;
    assert(candidates@.subrange(0, 0) =~= Seq::<LspStyleHoverCandidate>::empty());
    while i < candidates.len()
        invariant
            i <= candidates@.len(),
            index < candidates@.len(),
            candidate == candidates@[index as int],
            keep == (|t: LspStyleHoverCandidate|
                t.name@ == candidates@[index as int].name@ && is_custom_property_kind(t.kind)),
            ranges@ == ranges_where(candidates@.subrange(0, i as int), keep),
        decreases candidates@.len() - i,
    {
        let ghost prefix = candidates@.subrange(0, i + 1);
        assert(prefix.drop_last() =~= candidates@.subrange(0, i as int));
        assert(prefix.last() == candidates@[i as int]);
        let target = &candidates[i];
        let listed = str_equal(target.name.as_str(), candidate.name.as_str()) && str_starts_with(
            target.kind,
            "customProperty",
        );
        proof {
            reveal_with_fuel(Seq::filter, 1);
            assert(listed == keep(candidates@[i as int]));
            if listed {
                assert(prefix.filter(keep) == prefix.drop_last().filter(keep).push(candidates@[i as int]));
                assert(prefix.filter(keep).map_values(|c: LspStyleHoverCandidate| c.range) =~= prefix.drop_last().filter(
                    keep,
                ).map_values(|c: LspStyleHoverCandidate| c.range).push(target.range));
            } else {
                assert(prefix.filter(keep) == prefix.drop_last().filter(keep));
            }
        }
        if listed {
            ranges.push(target.range);
        }
        i = i + 1;
    }
    assert(candidates@.subrange(0, candidates@.len() as int) =~= candidates@);
    let sorted = sort_by_range(ranges, SortKey::StartEnd);
    proof {
        lemma_stable_sorted_len(ranges@, SortKey::StartEnd);
    }
    if sorted.len() == 0 {
        None
    } else {
        Some(sorted)
    }
}

/// Whether a source candidate may resolve into the style document `target_style_uri`:
/// no target asked for, no target on the candidate, or the same target.
pub fn source_candidate_matches_target_style(
    candidate: &LspStyleHoverCandidate,
    target_style_uri: Option<&str>,
) -> (res: bool)
    ensures
        res == match target_style_uri {
            None => true,
            Some(target) => match candidate.target_style_uri {
                None => true,
                Some(own) => own@ == target@,
            },
        },
{
    match target_style_uri {
        None => true,
        Some(target) => match &candidate.target_style_uri {
            None => true,
            Some(own) => str_equal(own.as_str(), target),
        },
    }
}

/// The selector name to look definitions up by: none (every selector) for a prefix
/// reference, the candidate's name otherwise.
pub fn source_candidate_definition_lookup_name(candidate: &LspStyleHoverCandidate) -> (res: &str)
    ensures
        res@ == if candidate.kind@ == "sourceSelectorPrefixReference"@ {
            ""@
        } else {
            candidate.name@
        },
{
    if str_equal(candidate.kind, "sourceSelectorPrefixReference") {
        ""
    } else {
        candidate.name.as_str()
    }
}

/// Whether a selector definition, found in the style document whose URI it is
/// paired with, offers its name as a completion: it lies in the target style
/// document (any, where none is given) and its name starts with the prefix typed
/// so far (any name, where none is given).
pub open spec fn offers_completion(
    definition: (String, LspStyleHoverCandidate),
    target_style_uri: Option<Seq<char>>,
    value_prefix: Option<Seq<u8>>,
) -> bool {
    &&& match target_style_uri {
        Some(t) => definition.0@ == t,
        None => true,
    }
    &&& match value_prefix {
        Some(p) => p.len() <= text_bytes(definition.1.name).len() && text_bytes(definition.1.name).subrange(
            0,
            p.len() as int,
        ) == p,
        None => true,
    }
}

/// Law: a definition offered for completion under a target style document lies in
/// that document, and one offered under a typed prefix has a name that starts with
/// it, whatever else is given.
pub proof fn law_completion_respects_target_and_prefix(
    definition: (String, LspStyleHoverCandidate),
    target_style_uri: Option<Seq<char>>,
    value_prefix: Option<Seq<u8>>,
)
    ensures
        offers_completion(definition, target_style_uri, value_prefix) ==> match target_style_uri {
            Some(t) => definition.0@ == t,
            None => true,
        },
        offers_completion(definition, target_style_uri, value_prefix) ==> match value_prefix {
            Some(p) => p.len() <= text_bytes(definition.1.name).len() && text_bytes(
                definition.1.name,
            ).subrange(0, p.len() as int) == p,
            None => true,
        },
{
}

/// The selector names offered for completion in a source document: the names of
/// the definitions that `offers_completion` selects, each once, in byte order.
pub fn source_completion_labels(
    definitions: &[(String, LspStyleHoverCandidate)],
    target_style_uri: Option<&str>,
    value_prefix: Option<&str>,
) -> (res: Vec<String>)
    ensures
        strings_sorted(res@),
        forall|u: Seq<char>|
            members(res@).contains(u) <==> exists|i: int|
                0 <= i < definitions@.len() && offers_completion(
                    definitions@[i],
                    match target_style_uri {
                        Some(t) => Some(t@),
                        None => None,
                    },
                    match value_prefix {
                        Some(p) => Some(p.spec_bytes()),
                        None => None,
                    },
                ) && #[trigger] definitions@[i].1.name@ == u,
        forall|u: Seq<char>|
            #![trigger members(res@).contains(u)]
            target_style_uri is Some && members(res@).contains(u) ==> exists|i: int|
                0 <= i < definitions@.len() && definitions@[i].0@ == target_style_uri->0@
                    && #[trigger] definitions@[i].1.name@ == u,
        forall|u: Seq<char>|
            #![trigger members(res@).contains(u)]
            value_prefix is Some && members(res@).contains(u) ==> value_prefix->0.spec_bytes().len()
                <= encode_utf8(u).len() && encode_utf8(u).subrange(
                0,
                value_prefix->0.spec_bytes().len() as int,
            ) == value_prefix->0.spec_bytes(),
{
    let ghost target = match target_style_uri {
        Some(t) => Some(t@),
        None => None,
    };
    let ghost prefix = match value_prefix {
        Some(p) => Some(p.spec_bytes()),
        None => None,
    };
    let mut labels = UriSet::new();
    let mut i: usize = 0;
    while i < definitions.len()
        invariant
            i <= definitions@.len(),
            labels.wf(),
            target == match target_style_uri {
                Some(t) => Some(t@),
                None => None::<Seq<char>>,
            },
            prefix == match value_prefix {
                Some(p) => Some(p.spec_bytes()),
                None => None::<Seq<u8>>,
            },
            forall|u: Seq<char>|
                labels.set().contains(u) <==> exists|k: int|
                    0 <= k < i && offers_completion(definitions@[k], target, prefix)
                        && #[trigger] definitions@[k].1.name@ == u,
        decreases definitions@.len() - i,
    {
        let (uri, definition) = &definitions[i];
        let in_target = match target_style_uri {
            Some(t) => str_equal(uri.as_str(), t),
            None => true,
        };
        let has_prefix = match value_prefix {
            Some(p) => str_starts_with(definition.name.as_str(), p),
            None => true,
        };
        let ghost before = labels.set();
        if in_target && has_prefix {
            labels.insert(definition.name.as_str());
        }
        proof {
            assert(offers_completion(definitions@[i as int], target, prefix) == (in_target && has_prefix));
            assert forall|u: Seq<char>|
                labels.set().contains(u) <==> exists|k: int|
                    0 <= k < i + 1 && offers_completion(definitions@[k], target, prefix)
                        && #[trigger] definitions@[k].1.name@ == u by {
                if labels.set().contains(u) && !before.contains(u) {
                    assert(definitions@[i as int].1.name@ == u);
                }
                if exists|k: int|
                    0 <= k < i + 1 && offers_completion(definitions@[k], target, prefix)
                        && #[trigger] definitions@[k].1.name@ == u {
                    let k = choose|k: int|
                        0 <= k < i + 1 && offers_completion(definitions@[k], target, prefix)
                            && #[trigger] definitions@[k].1.name@ == u;
                    if k < i {
                        assert(before.contains(u));
                    }
                }
            }
        }
        i = i + 1;
    }
    let ghost found = labels.set();
    let res = labels.into_vec();
    assert(members(res@) == found);
    proof {
        assert forall|u: Seq<char>|
            #![trigger members(res@).contains(u)]
            members(res@).contains(u) implies (target_style_uri is Some ==> exists|i: int|
                0 <= i < definitions@.len() && definitions@[i].0@ == target_style_uri->0@
                    && #[trigger] definitions@[i].1.name@ == u) && (value_prefix is Some
                ==> value_prefix->0.spec_bytes().len() <= encode_utf8(u).len() && encode_utf8(
                u,
            ).subrange(0, value_prefix->0.spec_bytes().len() as int) == value_prefix->0.spec_bytes()) by {
            let k = choose|k: int|
                0 <= k < definitions@.len() && offers_completion(definitions@[k], target, prefix)
                    && #[trigger] definitions@[k].1.name@ == u;
            law_completion_respects_target_and_prefix(definitions@[k], target, prefix);
        }
    }
    res
}

/// Where the references of a style candidate come from.
#[derive(Debug, Clone, Copy, PartialEq, Eq, Structural)]
pub enum StyleReferenceSource {
    /// The custom property declarations and references of the document.
    CustomProperty,
    /// The declarations of the Sass symbol and the candidates that refer to it.
    SassSymbol,
    /// The selector itself and the references to it from source documents.
    Selector,
    /// The candidate itself alone.
    Candidate,
}

/// The source of the references of a candidate of kind `kind`, which the style
/// index classifies as a Sass symbol candidate or not (`is_sass_symbol`).
pub open spec fn style_reference_source_of(kind: &str, is_sass_symbol: bool) -> StyleReferenceSource {
    if is_custom_property_kind(kind) {
        StyleReferenceSource::CustomProperty
    } else if is_sass_symbol {
        StyleReferenceSource::SassSymbol
    } else if kind@ == "selector"@ {
        StyleReferenceSource::Selector
    } else {
        StyleReferenceSource::Candidate
    }
}

/// Where the references of a candidate of kind `kind` come from (see
/// `style_reference_source_of`).
pub fn style_reference_source(kind: &str, is_sass_symbol: bool) -> (res: StyleReferenceSource)
    ensures
        res == style_reference_source_of(kind, is_sass_symbol),
{
    if str_starts_with(kind, "customProperty") {
        StyleReferenceSource::CustomProperty
    } else if is_sass_symbol {
        StyleReferenceSource::SassSymbol
    } else if str_equal(kind, "selector") {
        StyleReferenceSource::Selector
    } else {
        StyleReferenceSource::Candidate
    }
}

/// The references a request lists: the declarations first where
/// `include_declaration`, then the references, sorted stably by start.
pub fn assemble_references(
    declarations: Vec<LspLocation>,
    references: Vec<LspLocation>,
    include_declaration: bool,
) -> (res: Vec<LspLocation>)
    ensures
        res@ == stable_sorted(
            if include_declaration {
                declarations@ + references@
            } else {
                references@
            },
            SortKey::Start,
        ),
{
    let mut all = if include_declaration {
        declarations
    } else {
        Vec::new()
    };
    let mut rest = references;
    all.append(&mut rest);
    proof {
        if !include_declaration {
            assert(all@ =~= references@);
        }
    }
    sort_by_range(all, SortKey::Start)
}

} // verus!
