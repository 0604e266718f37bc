use vstd::prelude::*;
use vstd::string::StringSliceAdditionalSpecFns;
use vstd::utf8::encode_utf8_decode_utf8;

use crate::bytes::bytes_equal;
use crate::documents::{clone_opt_string, LspStyleHoverCandidate};
use crate::publications::opt_view;
use crate::position::{ParserPositionV0, ParserRangeV0};
use crate::registry::text_bytes;
use crate::sorting::{sort_by_range, stable_sorted, RangeKeyed, SortKey};
use crate::text::str_equal;
use crate::uri_set::{members, strings_sorted, UriSet};

verus! {

/// A range of a document.
#[derive(Debug, PartialEq, Eq)]
pub struct LspLocation {
    pub uri: String,
    pub range: ParserRangeV0,
}

impl Clone for LspLocation {
    fn clone(&self) -> (res: Self)
        ensures
            res == *self,
    {
        LspLocation { uri: self.uri.clone(), range: self.range }
    }
}

impl RangeKeyed for LspLocation {
    open spec fn sort_group(&self) -> Seq<u8> {
        text_bytes(self.uri)
    }

    fn group_key(&self) -> (res: &[u8]) {
        self.uri.as_str().as_bytes()
    }

    open spec fn sort_range(&self) -> ParserRangeV0 {
        self.range
    }

    fn range_key(&self) -> (res: ParserRangeV0) {
        self.range
    }

    open spec fn sort_name(&self) -> Seq<u8> {
        Seq::empty()
    }

    fn name_key(&self) -> (res: &[u8]) {
        &[]
    }
}

/// A style definition found in the document whose URI it is paired with, ordered
/// by that URI, then by its range, then by its name.
impl RangeKeyed for (String, LspStyleHoverCandidate) {
    open spec fn sort_group(&self) -> Seq<u8> {
        text_bytes(self.0)
    }

    fn group_key(&self) -> (res: &[u8]) {
        self.0.as_str().as_bytes()
    }

    open spec fn sort_range(&self) -> ParserRangeV0 {
        self.1.range
    }

    fn range_key(&self) -> (res: ParserRangeV0) {
        self.1.range
    }

    open spec fn sort_name(&self) -> Seq<u8> {
        text_bytes(self.1.name)
    }

    fn name_key(&self) -> (res: &[u8]) {
        self.1.name.as_str().as_bytes()
    }
}

/// An edit: `new_text` in place of a range of a document.
#[derive(Debug, PartialEq, Eq)]
pub struct LspTextEdit {
    pub uri: String,
    pub range: ParserRangeV0,
    pub new_text: String,
}

impl Clone for LspTextEdit {
    fn clone(&self) -> (res: Self)
        ensures
            res == *self,
    {
        LspTextEdit { uri: self.uri.clone(), range: self.range, new_text: self.new_text.clone() }
    }
}

impl RangeKeyed for LspTextEdit {
    open spec fn sort_group(&self) -> Seq<u8> {
        text_bytes(self.uri)
    }

    fn group_key(&self) -> (res: &[u8]) {
        self.uri.as_str().as_bytes()
    }

    open spec fn sort_range(&self) -> ParserRangeV0 {
        self.range
    }

    fn range_key(&self) -> (res: ParserRangeV0) {
        self.range
    }

    open spec fn sort_name(&self) -> Seq<u8> {
        Seq::empty()
    }

    fn name_key(&self) -> (res: &[u8]) {
        &[]
    }
}

/// Whether two locations name the same range of the same document.
pub open spec fn same_location(a: LspLocation, b: LspLocation) -> bool {
    a.uri@ == b.uri@ && a.range == b.range
}

/// `s` with every location dropped that repeats the one kept just before it.
pub open spec fn dedup_locations(s: Seq<LspLocation>) -> Seq<LspLocation>
    decreases s.len(),
{
    if s.len() == 0 {
        s
    } else {
        let kept = dedup_locations(s.drop_last());
        if kept.len() > 0 && same_location(kept.last(), s.last()) {
            kept
        } else {
            kept.push(s.last())
        }
    }
}

/// Whether `d` holds a location the same as `x`.
pub open spec fn holds_location(d: Seq<LspLocation>, x: LspLocation) -> bool {
    exists|j: int| 0 <= j < d.len() && same_location(x, d[j])
}

proof fn lemma_dedup_no_adjacent_repeats(s: Seq<LspLocation>)
    ensures
        forall|i: int|
            0 <= i < dedup_locations(s).len() - 1 ==> !same_location(
                #[trigger] dedup_locations(s)[i],
                dedup_locations(s)[i + 1],
            ),
    decreases s.len(),
{
    if s.len() > 0 {
        let t = s.drop_last();
        lemma_dedup_no_adjacent_repeats(t);
        let kept = dedup_locations(t);
        let d = dedup_locations(s);
        assert forall|i: int| 0 <= i < d.len() - 1 implies !same_location(#[trigger] d[i], d[i + 1]) by {
            if i + 1 < kept.len() {
                assert(d[i] == kept[i] && d[i + 1] == kept[i + 1]);
            } else {
                assert(d[i] == kept[i]);
            }
        }
    }
}

proof fn lemma_dedup_keeps_each_location(s: Seq<LspLocation>)
    ensures
        forall|i: int| 0 <= i < s.len() ==> holds_location(dedup_locations(s), #[trigger] s[i]),
    decreases s.len(),
{
    if s.len() > 0 {
        let t = s.drop_last();
        lemma_dedup_keeps_each_location(t);
        let kept = dedup_locations(t);
        let d = dedup_locations(s);
        assert forall|i: int| 0 <= i < s.len() implies holds_location(d, #[trigger] s[i]) by {
            if i < s.len() - 1 {
                assert(s[i] == t[i]);
                assert(holds_location(kept, t[i]));
                let j = choose|j: int| 0 <= j < kept.len() && same_location(t[i], kept[j]);
                assert(d[j] == kept[j]);
            } else if d.len() == kept.len() {
                assert(same_location(s[i], d[d.len() - 1]));
            } else {
                assert(d[d.len() - 1] == s[i]);
            }
        }
    }
}

proof fn lemma_dedup_keeps_only_given_locations(s: Seq<LspLocation>)
    ensures
        forall|j: int| 0 <= j < dedup_locations(s).len() ==> s.contains(#[trigger] dedup_locations(s)[j]),
    decreases s.len(),
{
    if s.len() > 0 {
        let t = s.drop_last();
        lemma_dedup_keeps_only_given_locations(t);
        let kept = dedup_locations(t);
        let d = dedup_locations(s);
        assert forall|j: int| 0 <= j < d.len() implies s.contains(#[trigger] d[j]) by {
            if j < kept.len() {
                assert(d[j] == kept[j]);
                assert(t.contains(kept[j]));
                let k = choose|k: int| 0 <= k < t.len() && t[k] == kept[j];
                assert(s[k] == t[k]);
            } else {
                assert(d[j] == s[s.len() - 1]);
            }
        }
    }
}

/// Dropping repeats keeps every location of `s` (one the same as it stays) and
/// only locations of `s`, and leaves no location next to one the same as it.
pub proof fn law_dedup_drops_only_adjacent_repeats(s: Seq<LspLocation>)
    ensures
        forall|i: int|
            0 <= i < dedup_locations(s).len() - 1 ==> !same_location(
                #[trigger] dedup_locations(s)[i],
                dedup_locations(s)[i + 1],
            ),
        forall|i: int| 0 <= i < s.len() ==> holds_location(dedup_locations(s), #[trigger] s[i]),
        forall|j: int| 0 <= j < dedup_locations(s).len() ==> s.contains(#[trigger] dedup_locations(s)[j]),
{
    lemma_dedup_no_adjacent_repeats(s);
    lemma_dedup_keeps_each_location(s);
    lemma_dedup_keeps_only_given_locations(s);
}

fn is_same_location(a: &LspLocation, b: &LspLocation) -> (res: bool)
    ensures
        res == same_location(*a, *b),
{
    str_equal(a.uri.as_str(), b.uri.as_str()) && a.range.start.line == b.range.start.line
        && a.range.start.character == b.range.start.character && a.range.end.line
        == b.range.end.line && a.range.end.character == b.range.end.character
}

/// The locations sorted stably by document URI (byte order) and start position,
/// with repeats of one location next to each other dropped.
pub fn sort_and_dedup_locations(locations: Vec<LspLocation>) -> (res: Vec<LspLocation>)
    ensures
        res@ == dedup_locations(stable_sorted(locations@, SortKey::GroupStart)),
{
    let sorted = sort_by_range(locations, SortKey::GroupStart);
    let ghost all = sorted@;
    let n = sorted.len();
    let mut rest = sorted;
    let mut res: Vec<LspLocation> = Vec::new();
    let mut i: usize = 0;
    assert(all.subrange(0, 0) =~= Seq::<LspLocation>::empty());
    assert(all.subrange(0, all.len() as int) =~= all);
    while rest.len() > 0
        invariant
            i <= all.len(),
            all.len() == n,
            rest@ == all.subrange(i as int, all.len() as int),
            res@ == dedup_locations(all.subrange(0, i as int)),
        decreases rest@.len(),
    {
        let x = rest.remove(0);
        proof {
            let prefix = all.subrange(0, i + 1);
            assert(prefix.drop_last() =~= all.subrange(0, i as int));
            assert(prefix.last() == x);
            assert(rest@ =~= all.subrange(i + 1, all.len() as int));
        }
        let repeat = res.len() > 0 && is_same_location(&res[res.len() - 1], &x);
        if !repeat {
            res.push(x);
        }
        i = i + 1;
    }
    assert(all.subrange(0, i as int) =~= all);
    res
}

/// The references to one selector, by name.
#[derive(Debug, Clone, PartialEq, Eq)]
pub struct SelectorReferenceLocations {
    pub selector_name: String,
    pub locations: Vec<LspLocation>,
}

/// A references code lens: at `position`, listing the locations of entry
/// `reference_index` of the references it was planned from.
#[derive(Debug, Clone, Copy, PartialEq, Eq)]
pub struct SelectorCodeLens {
    pub position: ParserPositionV0,
    pub reference_index: usize,
}

impl RangeKeyed for SelectorCodeLens {
    open spec fn sort_group(&self) -> Seq<u8> {
        Seq::empty()
    }

    fn group_key(&self) -> (res: &[u8]) {
        &[]
    }

    open spec fn sort_range(&self) -> ParserRangeV0 {
        ParserRangeV0 { start: self.position, end: self.position }
    }

    fn range_key(&self) -> (res: ParserRangeV0) {
        ParserRangeV0 { start: self.position, end: self.position }
    }

    open spec fn sort_name(&self) -> Seq<u8> {
        Seq::empty()
    }

    fn name_key(&self) -> (res: &[u8]) {
        &[]
    }
}

/// The first entry of `references` for the selector `name`.
pub open spec fn references_for(references: Seq<SelectorReferenceLocations>, name: Seq<char>) -> Option<
    int,
> {
    if exists|k: int| 0 <= k < references.len() && references[k].selector_name@ == name {
        Some(
            choose|k: int|
                0 <= k < references.len() && references[k].selector_name@ == name && forall|j: int|
                    0 <= j < k ==> (#[trigger] references[j]).selector_name@ != name,
        )
    } else {
        None
    }
}

/// The locations listed for the selector `name`: those of its first entry in
/// `references`, none where it has no entry.
pub fn selector_locations(references: Vec<SelectorReferenceLocations>, name: &str) -> (res: Vec<LspLocation>)
    ensures
        match references_for(references@, name@) {
            Some(k) => res@ == references@[k].locations@,
            None => res@.len() == 0,
        },
{
    match find_references(references.as_slice(), name) {
        Some(k) => {
            let mut references = references;
            let entry = references.remove(k);
            entry.locations
        },
        None => Vec::new(),
    }
}

/// Whether a selector candidate named `name` comes among `candidates`.
pub open spec fn selector_named(candidates: Seq<LspStyleHoverCandidate>, name: Seq<char>) -> bool {
    exists|j: int| 0 <= j < candidates.len() && candidates[j].kind@ == "selector"@ && candidates[j].name@ == name
}

/// The code lenses of `candidates` in their order: one for the first selector
/// candidate of each name that has references, at the start of its range.
pub open spec fn lenses_in_order(
    candidates: Seq<LspStyleHoverCandidate>,
    references: Seq<SelectorReferenceLocations>,
) -> Seq<SelectorCodeLens>
    decreases candidates.len(),
{
    if candidates.len() == 0 {
        Seq::empty()
    } else {
        let prior = lenses_in_order(candidates.drop_last(), references);
        let c = candidates.last();
        if c.kind@ == "selector"@ && !selector_named(candidates.drop_last(), c.name@) {
            match references_for(references, c.name@) {
                Some(k) => if references[k].locations@.len() > 0 {
                    prior.push(SelectorCodeLens { position: c.range.start, reference_index: k as usize })
                } else {
                    prior
                },
                None => prior,
            }
        } else {
            prior
        }
    }
}

/// The selector name a lens lists the references of.
pub open spec fn lens_name(references: Seq<SelectorReferenceLocations>, lens: SelectorCodeLens) -> Seq<char> {
    references[lens.reference_index as int].selector_name@
}

/// No two lenses list the references of one selector name.
pub open spec fn one_lens_per_name(
    lenses: Seq<SelectorCodeLens>,
    references: Seq<SelectorReferenceLocations>,
) -> bool {
    forall|i: int, j: int|
        0 <= i < j < lenses.len() ==> lens_name(references, #[trigger] lenses[i]) != lens_name(
            references,
            #[trigger] lenses[j],
        )
}

/// What each lens is: it lists a non-empty entry of `references`, whose name is
/// that of a selector candidate starting where the lens stands.
pub open spec fn lens_listed(
    candidates: Seq<LspStyleHoverCandidate>,
    references: Seq<SelectorReferenceLocations>,
    lens: SelectorCodeLens,
) -> bool {
    &&& lens.reference_index < references.len()
    &&& references[lens.reference_index as int].locations@.len() > 0
    &&& exists|j: int|
        0 <= j < candidates.len() && candidates[j].kind@ == "selector"@ && #[trigger] candidates[j].name@
            == lens_name(references, lens) && candidates[j].range.start == lens.position
}

proof fn lemma_first_entry_exists(references: Seq<SelectorReferenceLocations>, name: Seq<char>, k: int)
    requires
        0 <= k < references.len(),
        references[k].selector_name@ == name,
    ensures
        exists|m: int|
            0 <= m < references.len() && references[m].selector_name@ == name && forall|j: int|
                0 <= j < m ==> (#[trigger] references[j]).selector_name@ != name,
    decreases k,
{
    if exists|j: int| 0 <= j < k && (#[trigger] references[j]).selector_name@ == name {
        let j = choose|j: int| 0 <= j < k && (#[trigger] references[j]).selector_name@ == name;
        lemma_first_entry_exists(references, name, j);
    } else {
        assert(forall|j: int| 0 <= j < k ==> (#[trigger] references[j]).selector_name@ != name);
    }
}

/// `references_for` finds an entry with the name where there is one.
proof fn lemma_references_for(references: Seq<SelectorReferenceLocations>, name: Seq<char>)
    ensures
        match references_for(references, name) {
            Some(k) => 0 <= k < references.len() && references[k].selector_name@ == name,
            None => forall|k: int| 0 <= k < references.len() ==> references[k].selector_name@ != name,
        },
{
    if exists|k: int| 0 <= k < references.len() && references[k].selector_name@ == name {
        let k = choose|k: int| 0 <= k < references.len() && references[k].selector_name@ == name;
        lemma_first_entry_exists(references, name, k);
    }
}

proof fn lemma_lenses_in_order(
    candidates: Seq<LspStyleHoverCandidate>,
    references: Seq<SelectorReferenceLocations>,
)
    requires
        references.len() <= usize::MAX,
    ensures
        one_lens_per_name(lenses_in_order(candidates, references), references),
        forall|i: int|
            0 <= i < lenses_in_order(candidates, references).len() ==> lens_listed(
                candidates,
                references,
                #[trigger] lenses_in_order(candidates, references)[i],
            ),
    decreases candidates.len(),
{
    if candidates.len() > 0 {
        let dl = candidates.drop_last();
        lemma_lenses_in_order(dl, references);
        let prior = lenses_in_order(dl, references);
        let all = lenses_in_order(candidates, references);
        let c = candidates.last();
        assert forall|i: int| 0 <= i < prior.len() implies lens_listed(
            candidates,
            references,
            #[trigger] prior[i],
        ) by {
            assert(lens_listed(dl, references, prior[i]));
            let j = choose|j: int|
                0 <= j < dl.len() && dl[j].kind@ == "selector"@ && #[trigger] dl[j].name@ == lens_name(
                    references,
                    prior[i],
                ) && dl[j].range.start == prior[i].position;
            assert(candidates[j] == dl[j]);
        }
        lemma_references_for(references, c.name@);
        if all != prior {
            let k = references_for(references, c.name@)->0;
            let lens = SelectorCodeLens { position: c.range.start, reference_index: k as usize };
            assert(all == prior.push(lens));
            assert(candidates[candidates.len() - 1] == c);
            assert(lens_listed(candidates, references, lens));
            assert forall|i: int| 0 <= i < prior.len() implies lens_name(references, prior[i])
                != c.name@ by {
                assert(lens_listed(dl, references, prior[i]));
                let j = choose|j: int|
                    0 <= j < dl.len() && dl[j].kind@ == "selector"@ && #[trigger] dl[j].name@
                        == lens_name(references, prior[i]) && dl[j].range.start == prior[i].position;
                if lens_name(references, prior[i]) == c.name@ {
                    assert(selector_named(dl, c.name@));
                }
            }
            assert(lens_name(references, lens) == c.name@);
            assert forall|i: int, j: int| 0 <= i < j < all.len() implies lens_name(
                references,
                #[trigger] all[i],
            ) != lens_name(references, #[trigger] all[j]) by {
                if j == all.len() - 1 {
                    assert(all[i] == prior[i]);
                } else {
                    assert(all[i] == prior[i] && all[j] == prior[j]);
                }
            }
            assert forall|i: int| 0 <= i < all.len() implies lens_listed(
                candidates,
                references,
                #[trigger] all[i],
            ) by {
                if i < prior.len() {
                    assert(all[i] == prior[i]);
                }
            }
        }
    }
}

proof fn lemma_sorted_lenses_keep(
    s: Seq<SelectorCodeLens>,
    candidates: Seq<LspStyleHoverCandidate>,
    references: Seq<SelectorReferenceLocations>,
)
    requires
        one_lens_per_name(s, references),
        forall|i: int| 0 <= i < s.len() ==> lens_listed(candidates, references, #[trigger] s[i]),
    ensures
        one_lens_per_name(stable_sorted(s, SortKey::Start), references),
        forall|i: int|
            0 <= i < stable_sorted(s, SortKey::Start).len() ==> lens_listed(
                candidates,
                references,
                #[trigger] stable_sorted(s, SortKey::Start)[i],
            ),
        forall|i: int|
            0 <= i < stable_sorted(s, SortKey::Start).len() ==> exists|m: int|
                0 <= m < s.len() && #[trigger] stable_sorted(s, SortKey::Start)[i] == s[m],
    decreases s.len(),
{
    if s.len() > 0 {
        let dl = s.drop_last();
        assert(one_lens_per_name(dl, references)) by {
            assert forall|i: int, j: int| 0 <= i < j < dl.len() implies lens_name(
                references,
                #[trigger] dl[i],
            ) != lens_name(references, #[trigger] dl[j]) by {
                assert(dl[i] == s[i] && dl[j] == s[j]);
            }
        }
        assert forall|i: int| 0 <= i < dl.len() implies lens_listed(candidates, references, #[trigger] dl[i]) by {
            assert(dl[i] == s[i]);
        }
        lemma_sorted_lenses_keep(dl, candidates, references);
        let t = stable_sorted(dl, SortKey::Start);
        let x = s.last();
        let p = crate::sorting::lemma_insert_stable_is_insert(t, x, SortKey::Start);
        let r = stable_sorted(s, SortKey::Start);
        assert(r == t.insert(p, x));
        assert forall|i: int| 0 <= i < t.len() implies lens_name(references, #[trigger] t[i])
            != lens_name(references, x) by {
            let m = choose|m: int| 0 <= m < dl.len() && t[i] == dl[m];
            assert(dl[m] == s[m]);
            assert(s[s.len() - 1] == x);
        }
        assert forall|i: int, j: int| 0 <= i < j < r.len() implies lens_name(
            references,
            #[trigger] r[i],
        ) != lens_name(references, #[trigger] r[j]) by {
            if i < p {
                assert(r[i] == t[i]);
            } else if i > p {
                assert(r[i] == t[i - 1]);
            }
            if j < p {
                assert(r[j] == t[j]);
            } else if j > p {
                assert(r[j] == t[j - 1]);
            }
        }
        assert forall|i: int| 0 <= i < r.len() implies lens_listed(candidates, references, #[trigger] r[i])
            && exists|m: int| 0 <= m < s.len() && r[i] == s[m] by {
            if i < p {
                assert(r[i] == t[i]);
                let m = choose|m: int| 0 <= m < dl.len() && t[i] == dl[m];
                assert(dl[m] == s[m]);
            } else if i > p {
                assert(r[i] == t[i - 1]);
                let m = choose|m: int| 0 <= m < dl.len() && t[i - 1] == dl[m];
                assert(dl[m] == s[m]);
            } else {
                assert(r[i] == s[s.len() - 1]);
            }
        }
    }
}

/// The planned code lenses list each selector name at most once; each lists a
/// non-empty entry of `references` whose name is that of a selector candidate
/// starting where the lens stands; and they are in order of position.
pub proof fn law_one_lens_per_selector_name(
    candidates: Seq<LspStyleHoverCandidate>,
    references: Seq<SelectorReferenceLocations>,
)
    requires
        references.len() <= usize::MAX,
    ensures
        one_lens_per_name(stable_sorted(lenses_in_order(candidates, references), SortKey::Start), references),
        forall|i: int|
            0 <= i < stable_sorted(lenses_in_order(candidates, references), SortKey::Start).len()
                ==> lens_listed(
                candidates,
                references,
                #[trigger] stable_sorted(lenses_in_order(candidates, references), SortKey::Start)[i],
            ),
        crate::sorting::ranges_in_order(
            stable_sorted(lenses_in_order(candidates, references), SortKey::Start),
            SortKey::Start,
        ),
{
    lemma_lenses_in_order(candidates, references);
    lemma_sorted_lenses_keep(lenses_in_order(candidates, references), candidates, references);
    crate::sorting::law_sorted_ranges_are_ordered_permutation(
        lenses_in_order(candidates, references),
        SortKey::Start,
    );
}

fn find_references(references: &[SelectorReferenceLocations], name: &str) -> (res: Option<usize>)
    ensures
        match res {
            Some(k) => k < references@.len() && references_for(references@, name@) == Some(k as int),
            None => references_for(references@, name@) is None,
        },
{
    let mut k: usize = 0;
    while k < references.len()
        invariant
            k <= references@.len(),
            forall|j: int| 0 <= j < k ==> (#[trigger] references@[j]).selector_name@ != name@,
        decreases references@.len() - k,
    {
        if str_equal(references[k].selector_name.as_str(), name) {
            let ghost pick = choose|m: int|
                0 <= m < references@.len() && references@[m].selector_name@ == name@ && forall|j: int|
                    0 <= j < m ==> (#[trigger] references@[j]).selector_name@ != name@;
            proof {
                assert(0 <= k < references@.len() && references@[k as int].selector_name@ == name@);
                if pick < k {
                    assert(references@[pick].selector_name@ != name@);
                } else if pick > k {
                    assert(references@[k as int].selector_name@ != name@);
                }
            }
            return Some(k);
        }
        k = k + 1;
    }
    None
}

fn seen_selector(candidates: &[LspStyleHoverCandidate], end: usize, name: &str) -> (res: bool)
    requires
        end <= candidates@.len(),
    ensures
        res == selector_named(candidates@.subrange(0, end as int), name@),
{
    let ghost prefix = candidates@.subrange(0, end as int);
    let mut j: usize = 0;
    while j < end
        invariant
            j <= end <= candidates@.len(),
            prefix == candidates@.subrange(0, end as int),
            forall|m: int|
                0 <= m < j ==> !((#[trigger] prefix[m]).kind@ == "selector"@ && prefix[m].name@ == name@),
        decreases end - j,
    {
        if str_equal(candidates[j].kind, "selector") && str_equal(candidates[j].name.as_str(), name) {
            assert(prefix[j as int] == candidates@[j as int]);
            return true;
        }
        assert(prefix[j as int] == candidates@[j as int]);
        j = j + 1;
    }
    false
}

/// The references code lenses of a style document's candidates: one at the start
/// of the first selector candidate of each name that has references, pointing at
/// the entry of `references` that lists them, sorted stably by position; none
/// where there is no such lens.
pub fn plan_selector_code_lenses(
    candidates: &[LspStyleHoverCandidate],
    references: &[SelectorReferenceLocations],
) -> (res: Option<Vec<SelectorCodeLens>>)
    ensures
        match res {
            Some(lenses) => lenses@.len() > 0 && lenses@ == stable_sorted(
                lenses_in_order(candidates@, references@),
                SortKey::Start,
            ),
            None => lenses_in_order(candidates@, references@).len() == 0,
        },
{
    let mut lenses: Vec<SelectorCodeLens> = Vec::new();
    let mut i: usize = 0;
    assert(candidates@.subrange(0, 0) =~= Seq::<LspStyleHoverCandidate>::empty());
    while i < candidates.len()
        invariant
            i <= candidates@.len(),
            lenses@ == lenses_in_order(candidates@.subrange(0, i as int), references@),
        decreases candidates@.len() - i,
    {
        let ghost prefix = candidates@.subrange(0, i + 1);
        proof {
            assert(prefix.drop_last() =~= candidates@.subrange(0, i as int));
            assert(prefix.last() == candidates@[i as int]);
        }
        let candidate = &candidates[i];
        if str_equal(candidate.kind, "selector") && !seen_selector(candidates, i, candidate.name.as_str()) {
            if let Some(k) = find_references(references, candidate.name.as_str()) {
                if references[k].locations.len() > 0 {
                    lenses.push(SelectorCodeLens { position: candidate.range.start, reference_index: k });
                }
            }
        }
        i = i + 1;
    }
    assert(candidates@.subrange(0, candidates@.len() as int) =~= candidates@);
    let ghost built = lenses@;
    let sorted = sort_by_range(lenses, SortKey::Start);
    proof {
        crate::sorting::lemma_stable_sorted_len(built, SortKey::Start);
    }
    if sorted.len() == 0 {
        None
    } else {
        Some(sorted)
    }
}

/// The locations that `entries` list for the selector `name`, in order.
pub open spec fn locations_named(entries: Seq<(String, LspLocation)>, name: Seq<char>) -> Seq<LspLocation>
    decreases entries.len(),
{
    if entries.len() == 0 {
        Seq::empty()
    } else if entries.last().0@ == name {
        locations_named(entries.drop_last(), name).push(entries.last().1)
    } else {
        locations_named(entries.drop_last(), name)
    }
}

/// The selector names of grouped references, in order.
pub open spec fn group_names(groups: Seq<SelectorReferenceLocations>) -> Seq<String> {
    groups.map_values(|g: SelectorReferenceLocations| g.selector_name)
}

fn locations_for_name(entries: &[(String, LspLocation)], name: &str) -> (res: Vec<LspLocation>)
    ensures
        res@ == locations_named(entries@, name@),
{
    let mut res: Vec<LspLocation> = Vec::new();
    let mut i: usize = 0;
    assert(entries@.subrange(0, 0) =~= Seq::<(String, LspLocation)>::empty());
    while i < entries.len()
        invariant
            i <= entries@.len(),
            res@ == locations_named(entries@.subrange(0, i as int), name@),
        decreases entries@.len() - i,
    {
        let ghost prefix = entries@.subrange(0, i + 1);
        proof {
            assert(prefix.drop_last() =~= entries@.subrange(0, i as int));
            assert(prefix.last() == entries@[i as int]);
        }
        if str_equal(entries[i].0.as_str(), name) {
            res.push(entries[i].1.clone());
        }
        i = i + 1;
    }
    assert(entries@.subrange(0, entries@.len() as int) =~= entries@);
    res
}

/// References grouped by selector name: one group per name that `entries` list,
/// in byte order of the names, each holding that name's locations sorted by
/// document and start and without repeats next to each other.
pub fn group_locations_by_name(entries: &[(String, LspLocation)]) -> (res: Vec<SelectorReferenceLocations>)
    ensures
        strings_sorted(group_names(res@)),
        forall|u: Seq<char>|
            members(group_names(res@)).contains(u) <==> exists|i: int|
                0 <= i < entries@.len() && #[trigger] entries@[i].0@ == u,
        forall|k: int|
            0 <= k < res@.len() ==> (#[trigger] res@[k]).locations@ == dedup_locations(
                stable_sorted(locations_named(entries@, res@[k].selector_name@), SortKey::GroupStart),
            ),
{
    let mut names = UriSet::new();
    let mut i: usize = 0;
    while i < entries.len()
        invariant
            i <= entries@.len(),
            names.wf(),
            forall|u: Seq<char>|
                names.set().contains(u) <==> exists|k: int| 0 <= k < i && #[trigger] entries@[k].0@ == u,
        decreases entries@.len() - i,
    {
        let ghost before = names.set();
        names.insert(entries[i].0.as_str());
        proof {
            assert forall|u: Seq<char>|
                names.set().contains(u) <==> exists|k: int|
                    0 <= k < i + 1 && #[trigger] entries@[k].0@ == u by {
                if names.set().contains(u) && !before.contains(u) {
                    assert(entries@[i as int].0@ == u);
                }
                if exists|k: int| 0 <= k < i + 1 && #[trigger] entries@[k].0@ == u {
                    let k = choose|k: int| 0 <= k < i + 1 && #[trigger] entries@[k].0@ == u;
                    if k < i {
                        assert(before.contains(u));
                    }
                }
            }
        }
        i = i + 1;
    }
    let ghost found = names.set();
    let sorted_names = names.into_vec();
    assert(members(sorted_names@) == found);
    let ghost all = sorted_names@;
    let n = sorted_names.len();
    let mut rest = sorted_names;
    let mut res: Vec<SelectorReferenceLocations> = Vec::new();
    let mut j: usize = 0;
    assert(all.subrange(0, all.len() as int) =~= all);
    while rest.len() > 0
        invariant
            j <= all.len(),
            all.len() == n,
            rest@ == all.subrange(j as int, all.len() as int),
            group_names(res@) == all.subrange(0, j as int),
            forall|k: int|
                0 <= k < res@.len() ==> (#[trigger] res@[k]).locations@ == dedup_locations(
                    stable_sorted(locations_named(entries@, res@[k].selector_name@), SortKey::GroupStart),
                ),
        decreases rest@.len(),
    {
        assert(rest@[0] == all[j as int]);
        let name = rest.remove(0);
        proof {
            assert(rest@ =~= all.subrange(j + 1, all.len() as int));
        }
        let locations = sort_and_dedup_locations(locations_for_name(entries, name.as_str()));
        let ghost before = res@;
        res.push(SelectorReferenceLocations { selector_name: name, locations });
        proof {
            assert(group_names(res@) =~= group_names(before).push(all[j as int]));
            assert(all.subrange(0, j as int).push(all[j as int]) =~= all.subrange(0, j + 1));
        }
        j = j + 1;
    }
    assert(all.subrange(0, j as int) =~= all);
    res
}

/// The edits of one document.
#[derive(Debug, Clone, PartialEq, Eq)]
pub struct DocumentEdits {
    pub uri: String,
    pub edits: Vec<LspTextEdit>,
}

/// The edits of `edits` in the document `uri`, in order.
pub open spec fn edits_in(edits: Seq<LspTextEdit>, uri: Seq<char>) -> Seq<LspTextEdit>
    decreases edits.len(),
{
    if edits.len() == 0 {
        Seq::empty()
    } else if edits.last().uri@ == uri {
        edits_in(edits.drop_last(), uri).push(edits.last())
    } else {
        edits_in(edits.drop_last(), uri)
    }
}

/// Whether one of `edits` lies in the document `uri`.
pub open spec fn touches_document(edits: Seq<LspTextEdit>, uri: Seq<char>) -> bool {
    exists|i: int| 0 <= i < edits.len() && #[trigger] edits[i].uri@ == uri
}

/// The documents of grouped edits, in order.
pub open spec fn edit_documents(groups: Seq<DocumentEdits>) -> Seq<String> {
    groups.map_values(|g: DocumentEdits| g.uri)
}

fn edits_for_document(edits: &[LspTextEdit], uri: &str) -> (res: Vec<LspTextEdit>)
    ensures
        res@ == edits_in(edits@, uri@),
{
    let mut res: Vec<LspTextEdit> = Vec::new();
    let mut i: usize = 0;
    assert(edits@.subrange(0, 0) =~= Seq::<LspTextEdit>::empty());
    while i < edits.len()
        invariant
            i <= edits@.len(),
            res@ == edits_in(edits@.subrange(0, i as int), uri@),
        decreases edits@.len() - i,
    {
        let ghost prefix = edits@.subrange(0, i + 1);
        proof {
            assert(prefix.drop_last() =~= edits@.subrange(0, i as int));
            assert(prefix.last() == edits@[i as int]);
        }
        if str_equal(edits[i].uri.as_str(), uri) {
            res.push(edits[i].clone());
        }
        i = i + 1;
    }
    assert(edits@.subrange(0, edits@.len() as int) =~= edits@);
    res
}

/// Edits grouped by document: one group per document that `edits` touch, in byte
/// order of the URIs, each holding that document's edits sorted stably by start.
pub fn group_edits_by_document(edits: Vec<LspTextEdit>) -> (res: Vec<DocumentEdits>)
    ensures
        strings_sorted(edit_documents(res@)),
        forall|u: Seq<char>|
            #[trigger] members(edit_documents(res@)).contains(u) <==> touches_document(edits@, u),
        forall|k: int|
            0 <= k < res@.len() ==> (#[trigger] res@[k]).edits@ == edits_in(
                stable_sorted(edits@, SortKey::GroupStart),
                res@[k].uri@,
            ),
{
    let ghost given = edits@;
    let sorted = sort_by_range(edits, SortKey::GroupStart);
    proof {
        crate::sorting::law_sorted_ranges_are_ordered_permutation(given, SortKey::GroupStart);
    }
    let mut names = UriSet::new();
    let mut i: usize = 0;
    while i < sorted.len()
        invariant
            i <= sorted@.len(),
            names.wf(),
            forall|u: Seq<char>|
                names.set().contains(u) <==> exists|k: int| 0 <= k < i && #[trigger] sorted@[k].uri@ == u,
        decreases sorted@.len() - i,
    {
        let ghost before = names.set();
        names.insert(sorted[i].uri.as_str());
        proof {
            assert forall|u: Seq<char>|
                names.set().contains(u) <==> exists|k: int|
                    0 <= k < i + 1 && #[trigger] sorted@[k].uri@ == u by {
                if names.set().contains(u) && !before.contains(u) {
                    assert(sorted@[i as int].uri@ == u);
                }
                if exists|k: int| 0 <= k < i + 1 && #[trigger] sorted@[k].uri@ == u {
                    let k = choose|k: int| 0 <= k < i + 1 && #[trigger] sorted@[k].uri@ == u;
                    if k < i {
                        assert(before.contains(u));
                    }
                }
            }
        }
        i = i + 1;
    }
    proof {
        broadcast use vstd::seq_lib::group_to_multiset_ensures;

        assert forall|u: Seq<char>| #[trigger] touches_document(sorted@, u) <==> touches_document(
            given,
            u,
        ) by {
            if touches_document(sorted@, u) {
                let k = choose|k: int| 0 <= k < sorted@.len() && #[trigger] sorted@[k].uri@ == u;
                assert(sorted@.to_multiset().count(sorted@[k]) > 0);
                assert(given.to_multiset().count(sorted@[k]) > 0);
                assert(given.contains(sorted@[k]));
                let m = choose|m: int| 0 <= m < given.len() && given[m] == sorted@[k];
                assert(given[m].uri@ == u);
            }
            if touches_document(given, u) {
                let k = choose|k: int| 0 <= k < given.len() && #[trigger] given[k].uri@ == u;
                assert(given.to_multiset().count(given[k]) > 0);
                assert(sorted@.to_multiset().count(given[k]) > 0);
                assert(sorted@.contains(given[k]));
                let m = choose|m: int| 0 <= m < sorted@.len() && sorted@[m] == given[k];
                assert(sorted@[m].uri@ == u);
            }
        }
    }
    let ghost found = names.set();
    assert forall|u: Seq<char>| #[trigger] found.contains(u) <==> touches_document(given, u) by {
        assert(touches_document(sorted@, u) <==> touches_document(given, u));
    }
    let uris = names.into_vec();
    assert(members(uris@) == found);
    let ghost all = uris@;
    let n = uris.len();
    let mut rest = uris;
    let mut res: Vec<DocumentEdits> = Vec::new();
    let mut j: usize = 0;
    assert(all.subrange(0, all.len() as int) =~= all);
    while rest.len() > 0
        invariant
            j <= all.len(),
            all.len() == n,
            rest@ == all.subrange(j as int, all.len() as int),
            edit_documents(res@) == all.subrange(0, j as int),
            forall|k: int|
                0 <= k < res@.len() ==> (#[trigger] res@[k]).edits@ == edits_in(sorted@, res@[k].uri@),
        decreases rest@.len(),
    {
        assert(rest@[0] == all[j as int]);
        let uri = rest.remove(0);
        proof {
            assert(rest@ =~= all.subrange(j + 1, all.len() as int));
        }
        let document_edits = edits_for_document(sorted.as_slice(), uri.as_str());
        let ghost before = res@;
        res.push(DocumentEdits { uri, edits: document_edits });
        proof {
            assert(edit_documents(res@) =~= edit_documents(before).push(all[j as int]));
            assert(all.subrange(0, j as int).push(all[j as int]) =~= all.subrange(0, j + 1));
        }
        j = j + 1;
    }
    assert(all.subrange(0, j as int) =~= all);
    assert forall|u: Seq<char>| #[trigger] members(edit_documents(res@)).contains(u) <==> touches_document(
        given,
        u,
    ) by {
        assert(found.contains(u) <==> touches_document(given, u));
    }
    res
}

/// A lookup of the source references to one selector, limited to those that may
/// point at `target_style_uri`.
#[derive(Debug, Clone, PartialEq, Eq)]
pub struct SelectorLookup {
    pub selector_name: String,
    pub target_style_uri: Option<String>,
}

/// A lookup by value: the selector name and the target style document.
pub open spec fn lookup_view(l: SelectorLookup) -> (Seq<char>, Option<Seq<char>>) {
    (l.selector_name@, opt_view(l.target_style_uri))
}

/// The lookups of the names a prefix reference matched, within `target`.
pub open spec fn prefix_lookups(names: Seq<String>, target: Option<Seq<char>>) -> Seq<
    (Seq<char>, Option<Seq<char>>),
> {
    names.map_values(|x: String| (x@, target))
}

/// The lookups a references request on source candidates makes, in order: for a
/// prefix reference, one for each selector name its prefix matches (`prefix_names`,
/// at the same place); for any other candidate, one for its own name; each with
/// the candidate's target style document.
pub open spec fn reference_lookups(
    candidates: Seq<LspStyleHoverCandidate>,
    prefix_names: Seq<Seq<String>>,
) -> Seq<(Seq<char>, Option<Seq<char>>)>
    decreases candidates.len(),
{
    if candidates.len() == 0 {
        Seq::empty()
    } else {
        let c = candidates.last();
        let prior = reference_lookups(candidates.drop_last(), prefix_names.drop_last());
        if c.kind@ == "sourceSelectorPrefixReference"@ {
            prior + prefix_lookups(prefix_names.last(), opt_view(c.target_style_uri))
        } else {
            prior.push((c.name@, opt_view(c.target_style_uri)))
        }
    }
}

/// The lookups made for the last candidate, after those of the others.
proof fn lemma_lookups_step(candidates: Seq<LspStyleHoverCandidate>, prefix_names: Seq<Seq<String>>)
    requires
        candidates.len() > 0,
        prefix_names.len() == candidates.len(),
    ensures
        reference_lookups(candidates, prefix_names) == reference_lookups(
            candidates.drop_last(),
            prefix_names.drop_last(),
        ) + if candidates.last().kind@ == "sourceSelectorPrefixReference"@ {
            prefix_lookups(prefix_names.last(), opt_view(candidates.last().target_style_uri))
        } else {
            seq![(candidates.last().name@, opt_view(candidates.last().target_style_uri))]
        },
{
    let c = candidates.last();
    if c.kind@ != "sourceSelectorPrefixReference"@ {
        let prior = reference_lookups(candidates.drop_last(), prefix_names.drop_last());
        assert(prior.push((c.name@, opt_view(c.target_style_uri))) =~= prior + seq![
            (c.name@, opt_view(c.target_style_uri)),
        ]);
    }
}

#[verifier::spinoff_prover]
proof fn lemma_lookups_cover_plain(candidates: Seq<LspStyleHoverCandidate>, prefix_names: Seq<Seq<String>>)
    requires
        prefix_names.len() == candidates.len(),
    ensures
        forall|i: int|
            #![trigger candidates[i]]
            0 <= i < candidates.len() && candidates[i].kind@ != "sourceSelectorPrefixReference"@
                ==> reference_lookups(candidates, prefix_names).contains(
                (candidates[i].name@, opt_view(candidates[i].target_style_uri)),
            ),
    decreases candidates.len(),
{
    if candidates.len() > 0 {
        let cs = candidates.drop_last();
        let ns = prefix_names.drop_last();
        lemma_lookups_cover_plain(cs, ns);
        lemma_lookups_step(candidates, prefix_names);
        let prior = reference_lookups(cs, ns);
        let all = reference_lookups(candidates, prefix_names);
        let n = candidates.len() - 1;
        assert forall|i: int|
            0 <= i < candidates.len() && candidates[i].kind@ != "sourceSelectorPrefixReference"@
                implies exists|j: int| 0 <= j < all.len() && #[trigger] all[j] == (
                candidates[i].name@,
                opt_view(candidates[i].target_style_uri),
            ) by {
            if i < n {
                assert(cs[i] == candidates[i]);
                let j = choose|j: int| 0 <= j < prior.len() && #[trigger] prior[j] == (
                    cs[i].name@,
                    opt_view(cs[i].target_style_uri),
                );
                assert(all[j] == prior[j]);
            } else {
                assert(candidates[i] == candidates.last());
                assert(all[prior.len() as int] == (
                    candidates[i].name@,
                    opt_view(candidates[i].target_style_uri),
                ));
            }
        }
    }
}

proof fn lemma_prefix_lookup_at(
    candidates: Seq<LspStyleHoverCandidate>,
    prefix_names: Seq<Seq<String>>,
    i: int,
    k: int,
)
    requires
        prefix_names.len() == candidates.len(),
        0 <= i < candidates.len(),
        candidates[i].kind@ == "sourceSelectorPrefixReference"@,
        0 <= k < prefix_names[i].len(),
    ensures
        exists|j: int|
            0 <= j < reference_lookups(candidates, prefix_names).len() && reference_lookups(
                candidates,
                prefix_names,
            )[j] == (prefix_names[i][k]@, opt_view(candidates[i].target_style_uri)),
    decreases candidates.len(),
{
    let cs = candidates.drop_last();
    let ns = prefix_names.drop_last();
    lemma_lookups_step(candidates, prefix_names);
    let prior = reference_lookups(cs, ns);
    let all = reference_lookups(candidates, prefix_names);
    let n = candidates.len() - 1;
    if i < n {
        assert(cs[i] == candidates[i] && ns[i] == prefix_names[i]);
        lemma_prefix_lookup_at(cs, ns, i, k);
        let j = choose|j: int|
            0 <= j < prior.len() && prior[j] == (ns[i][k]@, opt_view(cs[i].target_style_uri));
        assert(all[j] == prior[j]);
    } else {
        assert(candidates[i] == candidates.last() && prefix_names[i] == prefix_names.last());
        let added = prefix_lookups(prefix_names.last(), opt_view(candidates.last().target_style_uri));
        assert(all == prior + added);
        assert(added[k] == (prefix_names[i][k]@, opt_view(candidates[i].target_style_uri)));
        assert(all[prior.len() + k] == added[k]);
    }
}

proof fn lemma_lookups_cover_prefix(candidates: Seq<LspStyleHoverCandidate>, prefix_names: Seq<Seq<String>>)
    requires
        prefix_names.len() == candidates.len(),
    ensures
        forall|i: int, k: int|
            #![trigger prefix_names[i][k]]
            0 <= i < candidates.len() && candidates[i].kind@ == "sourceSelectorPrefixReference"@ && 0
                <= k < prefix_names[i].len() ==> reference_lookups(candidates, prefix_names).contains(
                (prefix_names[i][k]@, opt_view(candidates[i].target_style_uri)),
            ),
{
    assert forall|i: int, k: int|
        #![trigger prefix_names[i][k]]
        0 <= i < candidates.len() && candidates[i].kind@ == "sourceSelectorPrefixReference"@ && 0 <= k
            < prefix_names[i].len() implies reference_lookups(candidates, prefix_names).contains(
                (prefix_names[i][k]@, opt_view(candidates[i].target_style_uri)),
            ) by {
        lemma_prefix_lookup_at(candidates, prefix_names, i, k);
    }
}

#[verifier::spinoff_prover]
proof fn lemma_lookups_sound(candidates: Seq<LspStyleHoverCandidate>, prefix_names: Seq<Seq<String>>)
    requires
        prefix_names.len() == candidates.len(),
    ensures
        forall|j: int|
            #![trigger reference_lookups(candidates, prefix_names)[j]]
            0 <= j < reference_lookups(candidates, prefix_names).len() ==> exists|i: int|
                #![trigger candidates[i]]
                0 <= i < candidates.len() && looked_up_for(
                    reference_lookups(candidates, prefix_names)[j],
                    candidates[i],
                    prefix_names[i],
                ),
    decreases candidates.len(),
{
    if candidates.len() > 0 {
        let cs = candidates.drop_last();
        let ns = prefix_names.drop_last();
        lemma_lookups_sound(cs, ns);
        lemma_lookups_step(candidates, prefix_names);
        let prior = reference_lookups(cs, ns);
        let all = reference_lookups(candidates, prefix_names);
        let n = candidates.len() - 1;
        assert forall|j: int| #![trigger all[j]] 0 <= j < all.len() implies exists|i: int|
            #![trigger candidates[i]]
            0 <= i < candidates.len() && looked_up_for(all[j], candidates[i], prefix_names[i]) by {
            if j < prior.len() {
                assert(all[j] == prior[j]);
                let i = choose|i: int| #![trigger cs[i]] 0 <= i < cs.len() && looked_up_for(prior[j], cs[i], ns[i]);
                assert(cs[i] == candidates[i] && ns[i] == prefix_names[i]);
                assert(looked_up_for(all[j], candidates[i], prefix_names[i]));
            } else {
                let k = j - prior.len();
                assert(candidates[n] == candidates.last() && prefix_names[n] == prefix_names.last());
                if candidates.last().kind@ == "sourceSelectorPrefixReference"@ {
                    let added = prefix_lookups(prefix_names.last(), opt_view(candidates.last().target_style_uri));
                    assert(all == prior + added);
                    assert(added[k] == (prefix_names[n][k]@, opt_view(candidates[n].target_style_uri)));
                    assert(all[j] == (prefix_names[n][k]@, opt_view(candidates[n].target_style_uri)));
                }
                assert(looked_up_for(all[j], candidates[n], prefix_names[n]));
            }
        }
    }
}

/// Whether `lookup` is one that candidate `c` calls for: within its target style
/// document, of its own name for a plain reference, of one of the names its prefix
/// matched (`prefix_names`) for a prefix reference.
pub open spec fn looked_up_for(
    lookup: (Seq<char>, Option<Seq<char>>),
    c: LspStyleHoverCandidate,
    prefix_names: Seq<String>,
) -> bool {
    &&& lookup.1 == opt_view(c.target_style_uri)
    &&& if c.kind@ == "sourceSelectorPrefixReference"@ {
        exists|k: int| 0 <= k < prefix_names.len() && prefix_names[k]@ == lookup.0
    } else {
        lookup.0 == c.name@
    }
}

/// Law: every lookup for source candidates looks up a name the candidate stands for
/// within the candidate's own target style document: the candidate's name for a
/// plain reference, one of the names its prefix matched for a prefix reference;
/// and every such name of every candidate is looked up.
pub proof fn law_lookups_follow_candidates(
    candidates: Seq<LspStyleHoverCandidate>,
    prefix_names: Seq<Seq<String>>,
)
    requires
        prefix_names.len() == candidates.len(),
    ensures
        forall|i: int|
            #![trigger candidates[i]]
            0 <= i < candidates.len() && candidates[i].kind@ != "sourceSelectorPrefixReference"@
                ==> reference_lookups(candidates, prefix_names).contains(
                (candidates[i].name@, opt_view(candidates[i].target_style_uri)),
            ),
        forall|i: int, k: int|
            #![trigger prefix_names[i][k]]
            0 <= i < candidates.len() && candidates[i].kind@ == "sourceSelectorPrefixReference"@ && 0
                <= k < prefix_names[i].len() ==> reference_lookups(candidates, prefix_names).contains(
                (prefix_names[i][k]@, opt_view(candidates[i].target_style_uri)),
            ),
        forall|j: int|
            #![trigger reference_lookups(candidates, prefix_names)[j]]
            0 <= j < reference_lookups(candidates, prefix_names).len() ==> exists|i: int|
                #![trigger candidates[i]]
                0 <= i < candidates.len() && looked_up_for(
                    reference_lookups(candidates, prefix_names)[j],
                    candidates[i],
                    prefix_names[i],
                ),
{
    lemma_lookups_cover_plain(candidates, prefix_names);
    lemma_lookups_cover_prefix(candidates, prefix_names);
    lemma_lookups_sound(candidates, prefix_names);
}

/// Whether `lookups` look up the selector `name` within `target`.
pub open spec fn has_lookup(lookups: Seq<SelectorLookup>, name: Seq<char>, target: Option<Seq<char>>) -> bool {
    exists|j: int|
        0 <= j < lookups.len() && lookups[j].selector_name@ == name && opt_view(
            lookups[j].target_style_uri,
        ) == target
}

/// The selector lookups for the source candidates under a references request (see
/// `reference_lookups`); `prefix_names[i]` lists the selector names that candidate
/// `i` matches where it is a prefix reference.
pub fn source_reference_lookups(
    candidates: &[LspStyleHoverCandidate],
    prefix_names: &[Vec<String>],
) -> (res: Vec<SelectorLookup>)
    requires
        prefix_names@.len() == candidates@.len(),
    ensures
        res@.map_values(|l: SelectorLookup| lookup_view(l)) == reference_lookups(
            candidates@,
            prefix_names@.map_values(|v: Vec<String>| v@),
        ),
        forall|i: int|
            #![trigger candidates@[i]]
            0 <= i < candidates@.len() && candidates@[i].kind@ != "sourceSelectorPrefixReference"@
                ==> has_lookup(
                res@,
                candidates@[i].name@,
                opt_view(candidates@[i].target_style_uri),
            ),
        forall|i: int, k: int|
            #![trigger prefix_names@[i]@[k]]
            0 <= i < candidates@.len() && candidates@[i].kind@ == "sourceSelectorPrefixReference"@ && 0
                <= k < prefix_names@[i]@.len() ==> has_lookup(
                res@,
                prefix_names@[i]@[k]@,
                opt_view(candidates@[i].target_style_uri),
            ),
        forall|j: int|
            #![trigger res@[j]]
            0 <= j < res@.len() ==> exists|i: int|
                #![trigger candidates@[i]]
                0 <= i < candidates@.len() && opt_view(res@[j].target_style_uri) == opt_view(
                    candidates@[i].target_style_uri,
                ) && if candidates@[i].kind@ == "sourceSelectorPrefixReference"@ {
                    exists|k: int|
                        0 <= k < prefix_names@[i]@.len() && prefix_names@[i]@[k]@ == res@[j].selector_name@
                } else {
                    res@[j].selector_name@ == candidates@[i].name@
                },
{
    let ghost names = prefix_names@.map_values(|v: Vec<String>| v@);
    let mut res: Vec<SelectorLookup> = Vec::new();
    let mut i: usize = 0;
    assert(candidates@.subrange(0, 0) =~= Seq::<LspStyleHoverCandidate>::empty());
    assert(res@.map_values(|l: SelectorLookup| lookup_view(l)) =~= Seq::empty());
    while i < candidates.len()
        invariant
            i <= candidates@.len(),
            prefix_names@.len() == candidates@.len(),
            names == prefix_names@.map_values(|v: Vec<String>| v@),
            res@.map_values(|l: SelectorLookup| lookup_view(l)) == reference_lookups(
                candidates@.subrange(0, i as int),
                names.subrange(0, i as int),
            ),
        decreases candidates@.len() - i,
    {
        let c = &candidates[i];
        let ghost before = res@.map_values(|l: SelectorLookup| lookup_view(l));
        proof {
            let cs = candidates@.subrange(0, i + 1);
            let ns = names.subrange(0, i + 1);
            assert(cs.drop_last() =~= candidates@.subrange(0, i as int));
            assert(ns.drop_last() =~= names.subrange(0, i as int));
            assert(cs.last() == candidates@[i as int]);
            assert(ns.last() == prefix_names@[i as int]@);
        }
        if str_equal(c.kind, "sourceSelectorPrefixReference") {
            let list = &prefix_names[i];
            let mut j: usize = 0;
            while j < list.len()
                invariant
                    j <= list@.len(),
                    res@.map_values(|l: SelectorLookup| lookup_view(l)) == before + list@.subrange(
                        0,
                        j as int,
                    ).map_values(|n: String| (n@, opt_view(c.target_style_uri))),
                decreases list@.len() - j,
            {
                let ghost mid = res@;
                res.push(
                    SelectorLookup {
                        selector_name: list[j].clone(),
                        target_style_uri: clone_opt_string(&c.target_style_uri),
                    },
                );
                proof {
                    assert(res@ =~= mid.push(res@.last()));
                    assert(list@.subrange(0, j + 1) =~= list@.subrange(0, j as int).push(list@[j as int]));
                    assert(res@.map_values(|l: SelectorLookup| lookup_view(l)) =~= mid.map_values(
                        |l: SelectorLookup| lookup_view(l),
                    ).push(lookup_view(res@.last())));
                    assert(list@.subrange(0, j + 1).map_values(
                        |n: String| (n@, opt_view(c.target_style_uri)),
                    ) =~= list@.subrange(0, j as int).map_values(
                        |n: String| (n@, opt_view(c.target_style_uri)),
                    ).push((list@[j as int]@, opt_view(c.target_style_uri))));
                    assert(res@.map_values(|l: SelectorLookup| lookup_view(l)) =~= before
                        + list@.subrange(0, j + 1).map_values(
                        |n: String| (n@, opt_view(c.target_style_uri)),
                    ));
                }
                j = j + 1;
            }
            assert(list@.subrange(0, list@.len() as int) =~= list@);
        } else {
            res.push(
                SelectorLookup {
                    selector_name: c.name.clone(),
                    target_style_uri: clone_opt_string(&c.target_style_uri),
                },
            );
            assert(res@.map_values(|l: SelectorLookup| lookup_view(l)) =~= before.push(
                (c.name@, opt_view(c.target_style_uri)),
            ));
        }
        i = i + 1;
    }
    assert(candidates@.subrange(0, candidates@.len() as int) =~= candidates@);
    assert(names.subrange(0, candidates@.len() as int) =~= names);
    proof {
        let views = res@.map_values(|l: SelectorLookup| lookup_view(l));
        law_lookups_follow_candidates(candidates@, names);
        assert forall|i: int|
            #![trigger candidates@[i]]
            0 <= i < candidates@.len() && candidates@[i].kind@ != "sourceSelectorPrefixReference"@
                implies has_lookup(
                res@,
                candidates@[i].name@,
                opt_view(candidates@[i].target_style_uri),
            ) by {
            assert(views.contains((candidates@[i].name@, opt_view(candidates@[i].target_style_uri))));
            let j = choose|j: int|
                0 <= j < views.len() && views[j] == (
                    candidates@[i].name@,
                    opt_view(candidates@[i].target_style_uri),
                );
            assert(views[j] == lookup_view(res@[j]));
            assert(res@[j].selector_name@ == candidates@[i].name@);
        }
        assert forall|i: int, k: int|
            #![trigger prefix_names@[i]@[k]]
            0 <= i < candidates@.len() && candidates@[i].kind@ == "sourceSelectorPrefixReference"@ && 0
                <= k < prefix_names@[i]@.len() implies has_lookup(
                res@,
                prefix_names@[i]@[k]@,
                opt_view(candidates@[i].target_style_uri),
            ) by {
            assert(names[i] == prefix_names@[i]@);
            assert(names[i][k] == prefix_names@[i]@[k]);
            assert(views.contains((names[i][k]@, opt_view(candidates@[i].target_style_uri))));
            let j = choose|j: int|
                0 <= j < views.len() && views[j] == (
                    names[i][k]@,
                    opt_view(candidates@[i].target_style_uri),
                );
            assert(views[j] == lookup_view(res@[j]));
        }
        assert forall|j: int|
            #![trigger res@[j]]
            0 <= j < res@.len() implies exists|i: int|
                #![trigger candidates@[i]]
                0 <= i < candidates@.len() && opt_view(res@[j].target_style_uri) == opt_view(
                    candidates@[i].target_style_uri,
                ) && if candidates@[i].kind@ == "sourceSelectorPrefixReference"@ {
                    exists|k: int|
                        0 <= k < prefix_names@[i]@.len() && prefix_names@[i]@[k]@ == res@[j].selector_name@
                } else {
                    res@[j].selector_name@ == candidates@[i].name@
                } by {
            assert(views[j] == lookup_view(res@[j]));
            assert(reference_lookups(candidates@, names)[j] == views[j]);
            let i = choose|i: int|
                #![trigger candidates@[i]]
                0 <= i < candidates@.len() && looked_up_for(views[j], candidates@[i], names[i]);
            assert(names[i] == prefix_names@[i]@);
            if candidates@[i].kind@ == "sourceSelectorPrefixReference"@ {
                let k = choose|k: int| 0 <= k < names[i].len() && names[i][k]@ == views[j].0;
                assert(prefix_names@[i]@[k] == names[i][k]);
            }
        }
    }
    res
}

/// The answer to a references request on source candidates: the declarations
/// first where `include_declaration`, then the references found, sorted stably by
/// document and start with repeats next to each other dropped; none where that
/// leaves nothing.
pub fn assemble_source_references(
    declarations: Vec<LspLocation>,
    references: Vec<LspLocation>,
    include_declaration: bool,
) -> (res: Option<Vec<LspLocation>>)
    ensures
        ({
            let all = dedup_locations(
                stable_sorted(
                    if include_declaration {
                        declarations@ + references@
                    } else {
                        references@
                    },
                    SortKey::GroupStart,
                ),
            );
            match res {
                Some(list) => all.len() > 0 && list@ == all,
                None => all.len() == 0,
            }
        }),
{
    let mut all = if include_declaration {
        declarations
    } else {
        Vec::new()
    };
    let mut rest = references;
    all.append(&mut rest);
    proof {
        if !include_declaration {
            assert(all@ =~= references@);
        }
    }
    let locations = sort_and_dedup_locations(all);
    if locations.len() == 0 {
        None
    } else {
        Some(locations)
    }
}

} // verus!
