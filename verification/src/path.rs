use vstd::prelude::*;

use crate::bytes::bytes_equal;
use crate::uri::{file_uri_path, file_uri_to_path};
use vstd::string::StringSliceAdditionalSpecFns;

verus! {

/// A file-system path after lexical normalisation: whether it is rooted, and its
/// remaining components, none of which is empty, `.` or `..`.
#[derive(Debug, PartialEq, Eq)]
pub struct NormalizedPath {
    pub absolute: bool,
    pub components: Vec<Vec<u8>>,
}

/// The mathematical content of a normalised path.
pub struct PathView {
    pub absolute: bool,
    pub components: Seq<Seq<u8>>,
}

/// The byte strings held by a vector of byte vectors.
pub open spec fn seq_of_bytes(v: &Vec<Vec<u8>>) -> Seq<Seq<u8>> {
    v@.map_values(|c: Vec<u8>| c@)
}

impl NormalizedPath {
    pub open spec fn view(&self) -> PathView {
        PathView { absolute: self.absolute, components: seq_of_bytes(&self.components) }
    }
}

/// The segment `.`.
pub open spec fn is_dot_segment(segment: Seq<u8>) -> bool {
    segment.len() == 1 && segment[0] == 46
}

/// The segment `..`.
pub open spec fn is_dot_dot_segment(segment: Seq<u8>) -> bool {
    segment.len() == 2 && segment[0] == 46 && segment[1] == 46
}

/// Adds one `/`-separated segment to the components kept so far: empty segments and
/// `.` are dropped, `..` removes the last kept component if there is one, and any
/// other segment is kept.
pub open spec fn apply_segment(components: Seq<Seq<u8>>, segment: Seq<u8>) -> Seq<Seq<u8>> {
    if segment.len() == 0 || is_dot_segment(segment) {
        components
    } else if is_dot_dot_segment(segment) {
        if components.len() > 0 {
            components.drop_last()
        } else {
            components
        }
    } else {
        components.push(segment)
    }
}

/// The components kept after every complete segment of `bytes`, and the pending
/// segment after the last `/`.
pub open spec fn segment_scan(bytes: Seq<u8>) -> (Seq<Seq<u8>>, Seq<u8>)
    decreases bytes.len(),
{
    if bytes.len() == 0 {
        (Seq::empty(), Seq::empty())
    } else {
        let (components, pending) = segment_scan(bytes.drop_last());
        if bytes.last() == 47 {
            (apply_segment(components, pending), Seq::empty())
        } else {
            (components, pending.push(bytes.last()))
        }
    }
}

/// The normal form of the path spelled by `bytes`.
pub open spec fn normalized(bytes: Seq<u8>) -> PathView {
    let (components, pending) = segment_scan(bytes);
    PathView {
        absolute: bytes.len() > 0 && bytes[0] == 47,
        components: apply_segment(components, pending),
    }
}

/// The number of components of a path, its root included.
pub open spec fn depth(path: PathView) -> nat {
    (if path.absolute { 1nat } else { 0nat }) + path.components.len()
}

/// Whether `path` is the empty path.
pub open spec fn is_empty_path(path: PathView) -> bool {
    !path.absolute && path.components.len() == 0
}

/// Whether `document` equals `root` or lies beneath it, component by component;
/// the empty root contains nothing.
pub open spec fn contains_path(root: PathView, document: PathView) -> bool {
    &&& !is_empty_path(root)
    &&& root.absolute == document.absolute
    &&& root.components.len() <= document.components.len()
    &&& document.components.subrange(0, root.components.len() as int) == root.components
}

/// The normalised path that a `file://` URI names, if it names one.
pub open spec fn uri_root_path(uri: Seq<u8>) -> Option<PathView> {
    match file_uri_path(uri) {
        Some(bytes) => Some(normalized(bytes)),
        None => None,
    }
}

/// Two workspace folder URIs name the same folder: the same text, or `file://`
/// URIs whose normalised paths are equal.
pub open spec fn uris_equivalent(left: Seq<u8>, right: Seq<u8>) -> bool {
    left == right || (uri_root_path(left) is Some && uri_root_path(left) == uri_root_path(right))
}

fn apply_segment_exec(components: &mut Vec<Vec<u8>>, segment: Vec<u8>)
    ensures
        seq_of_bytes(final(components)) == apply_segment(seq_of_bytes(old(components)), segment@),
{
    let is_dot = segment.len() == 1 && segment[0] == 46;
    let is_dot_dot = segment.len() == 2 && segment[0] == 46 && segment[1] == 46;
    if segment.len() == 0 || is_dot {
    } else if is_dot_dot {
        if components.len() > 0 {
            let ghost before = seq_of_bytes(&components);
            components.pop();
            assert(seq_of_bytes(&components) =~= before.drop_last());
        }
    } else {
        let ghost before = seq_of_bytes(&components);
        let ghost seg = segment@;
        components.push(segment);
        assert(seq_of_bytes(&components) =~= before.push(seg));
    }
}

/// Normalises the path spelled by `path` (see `normalized`).
pub fn normalize_path(path: &[u8]) -> (res: NormalizedPath)
    ensures
        res.view() == normalized(path@),
{
    let mut components: Vec<Vec<u8>> = Vec::new();
    let mut pending: Vec<u8> = Vec::new();
    let mut i: usize = 0;
    assert(path@.subrange(0, 0) =~= Seq::<u8>::empty());
    assert(seq_of_bytes(&components) =~= Seq::<Seq<u8>>::empty());
    while i < path.len()
        invariant
            i <= path@.len(),
            segment_scan(path@.subrange(0, i as int)) == (seq_of_bytes(&components), pending@),
        decreases path@.len() - i,
    {
        let ghost prefix = path@.subrange(0, i + 1);
        assert(prefix.drop_last() =~= path@.subrange(0, i as int));
        assert(prefix.last() == path@[i as int]);
        if path[i] == 47 {
            let segment = pending;
            apply_segment_exec(&mut components, segment);
            pending = Vec::new();
            assert(pending@ =~= Seq::<u8>::empty());
        } else {
            pending.push(path[i]);
        }
        i = i + 1;
    }
    assert(path@.subrange(0, path@.len() as int) =~= path@);
    let absolute = path.len() > 0 && path[0] == 47;
    apply_segment_exec(&mut components, pending);
    NormalizedPath { absolute, components }
}

/// While scanning, kept components and the pending segment never outnumber the
/// bytes read, less a leading `/`.
proof fn lemma_segment_scan_bound(bytes: Seq<u8>)
    ensures
        segment_scan(bytes).0.len() + segment_scan(bytes).1.len() + (if bytes.len() > 0
            && bytes[0] == 47 { 1int } else { 0int }) <= bytes.len(),
    decreases bytes.len(),
{
    if bytes.len() > 0 {
        let prefix = bytes.drop_last();
        lemma_segment_scan_bound(prefix);
        if prefix.len() > 0 {
            assert(prefix[0] == bytes[0]);
        }
    }
}

/// A normalised path has no more components, its root counted, than the bytes
/// that spelled it.
pub proof fn lemma_normalized_depth_bound(bytes: Seq<u8>)
    ensures
        depth(normalized(bytes)) <= bytes.len(),
{
    lemma_segment_scan_bound(bytes);
}

/// Whether two normalised paths are equal.
pub fn paths_equal(left: &NormalizedPath, right: &NormalizedPath) -> (res: bool)
    ensures
        res == (left.view() == right.view()),
{
    if left.absolute != right.absolute || left.components.len() != right.components.len() {
        proof {
            if left.view() == right.view() {
                assert(seq_of_bytes(&left.components).len() == seq_of_bytes(&right.components).len());
            }
        }
        return false;
    }
    let mut i: usize = 0;
    while i < left.components.len()
        invariant
            left.components@.len() == right.components@.len(),
            i <= left.components@.len(),
            forall|j: int|
                0 <= j < i ==> seq_of_bytes(&left.components)[j] == seq_of_bytes(&right.components)[j],
        decreases left.components@.len() - i,
    {
        if !bytes_equal(left.components[i].as_slice(), right.components[i].as_slice()) {
            proof {
                assert(seq_of_bytes(&left.components)[i as int] != seq_of_bytes(&right.components)[i as int]);
            }
            return false;
        }
        i = i + 1;
    }
    assert(seq_of_bytes(&left.components) =~= seq_of_bytes(&right.components));
    true
}

/// Whether `document_path` equals `workspace_root` or lies beneath it.
pub fn path_is_equal_or_descendant(document_path: &NormalizedPath, workspace_root: &NormalizedPath) -> (res: bool)
    ensures
        res == contains_path(workspace_root.view(), document_path.view()),
{
    if !workspace_root.absolute && workspace_root.components.len() == 0 {
        return false;
    }
    if workspace_root.absolute != document_path.absolute {
        return false;
    }
    let n = workspace_root.components.len();
    if n > document_path.components.len() {
        return false;
    }
    let ghost root = seq_of_bytes(&workspace_root.components);
    let ghost doc = seq_of_bytes(&document_path.components);
    let mut i: usize = 0;
    while i < n
        invariant
            n == root.len(),
            n <= doc.len(),
            root == seq_of_bytes(&workspace_root.components),
            doc == seq_of_bytes(&document_path.components),
            i <= n,
            forall|j: int| 0 <= j < i ==> doc[j] == root[j],
        decreases n - i,
    {
        if !bytes_equal(document_path.components[i].as_slice(), workspace_root.components[i].as_slice()) {
            proof {
                assert(doc.subrange(0, n as int)[i as int] == doc[i as int]);
            }
            return false;
        }
        i = i + 1;
    }
    assert(doc.subrange(0, n as int) =~= root);
    true
}

/// The number of components of a normalised path, its root included.
pub fn path_depth(path: &NormalizedPath) -> (res: usize)
    requires
        depth(path.view()) <= usize::MAX,
    ensures
        res == depth(path.view()),
{
    if path.absolute {
        path.components.len() + 1
    } else {
        path.components.len()
    }
}

/// Whether two workspace folder URIs name the same folder (see `uris_equivalent`).
pub fn workspace_folder_uri_equivalent(left: &str, right: &str) -> (res: bool)
    ensures
        res == uris_equivalent(left.spec_bytes(), right.spec_bytes()),
{
    if bytes_equal(left.as_bytes(), right.as_bytes()) {
        return true;
    }
    match (file_uri_to_path(left), file_uri_to_path(right)) {
        (Some(left_path), Some(right_path)) => {
            let l = normalize_path(left_path.as_slice());
            let r = normalize_path(right_path.as_slice());
            paths_equal(&l, &r)
        },
        _ => false,
    }
}

/// A component of a normal form: not empty, not `.` or `..`, and without `/`.
pub open spec fn clean_component(c: Seq<u8>) -> bool {
    &&& c.len() > 0
    &&& !is_dot_segment(c)
    &&& !is_dot_dot_segment(c)
    &&& forall|i: int| 0 <= i < c.len() ==> c[i] != 47
}

/// Every component is clean.
pub open spec fn clean_components(cs: Seq<Seq<u8>>) -> bool {
    forall|i: int| 0 <= i < cs.len() ==> clean_component(#[trigger] cs[i])
}

/// The components joined by `/`.
pub open spec fn joined(cs: Seq<Seq<u8>>) -> Seq<u8>
    decreases cs.len(),
{
    if cs.len() == 0 {
        Seq::empty()
    } else if cs.len() == 1 {
        cs[0]
    } else {
        joined(cs.drop_last()) + seq![47u8] + cs.last()
    }
}

/// The path a normal form spells: `/` first where it is rooted, then its
/// components joined by `/`.
pub open spec fn rendered(path: PathView) -> Seq<u8> {
    (if path.absolute {
        seq![47u8]
    } else {
        Seq::empty()
    }) + joined(path.components)
}

proof fn lemma_apply_segment_clean(cs: Seq<Seq<u8>>, segment: Seq<u8>)
    requires
        clean_components(cs),
        forall|i: int| 0 <= i < segment.len() ==> segment[i] != 47,
    ensures
        clean_components(apply_segment(cs, segment)),
{
    let r = apply_segment(cs, segment);
    assert forall|i: int| 0 <= i < r.len() implies clean_component(#[trigger] r[i]) by {
        if i < cs.len() {
            assert(r[i] == cs[i]);
        }
    }
}

proof fn lemma_scan_clean(bytes: Seq<u8>)
    ensures
        clean_components(segment_scan(bytes).0),
        forall|i: int| 0 <= i < segment_scan(bytes).1.len() ==> segment_scan(bytes).1[i] != 47,
    decreases bytes.len(),
{
    if bytes.len() > 0 {
        lemma_scan_clean(bytes.drop_last());
        let (cs, pending) = segment_scan(bytes.drop_last());
        if bytes.last() == 47 {
            lemma_apply_segment_clean(cs, pending);
        } else {
            assert forall|i: int| 0 <= i < pending.push(bytes.last()).len() implies pending.push(
                bytes.last(),
            )[i] != 47 by {
                if i < pending.len() {
                    assert(pending.push(bytes.last())[i] == pending[i]);
                }
            }
        }
    }
}

/// A normal form has no empty, `.` or `..` component, and no component holds `/`.
pub proof fn law_normal_form_is_clean(bytes: Seq<u8>)
    ensures
        clean_components(normalized(bytes).components),
{
    lemma_scan_clean(bytes);
    let (cs, pending) = segment_scan(bytes);
    lemma_apply_segment_clean(cs, pending);
}

proof fn lemma_scan_append_plain(prefix: Seq<u8>, s: Seq<u8>)
    requires
        forall|i: int| 0 <= i < s.len() ==> s[i] != 47,
    ensures
        segment_scan(prefix + s) == (segment_scan(prefix).0, segment_scan(prefix).1 + s),
    decreases s.len(),
{
    if s.len() == 0 {
        assert(prefix + s =~= prefix);
        assert(segment_scan(prefix).1 + s =~= segment_scan(prefix).1);
    } else {
        let t = s.drop_last();
        lemma_scan_append_plain(prefix, t);
        assert((prefix + s).drop_last() =~= prefix + t);
        assert((prefix + s).last() == s.last());
        assert(segment_scan(prefix).1 + t.push(s.last()) =~= segment_scan(prefix).1 + s);
        assert((segment_scan(prefix).1 + t).push(s.last()) =~= segment_scan(prefix).1 + s);
    }
}

proof fn lemma_scan_joined(base: Seq<u8>, cs: Seq<Seq<u8>>)
    requires
        segment_scan(base).1.len() == 0,
        cs.len() > 0,
        clean_components(cs),
    ensures
        segment_scan(base + joined(cs)) == (segment_scan(base).0 + cs.drop_last(), cs.last()),
    decreases cs.len(),
{
    let x = segment_scan(base).0;
    if cs.len() == 1 {
        assert(clean_component(cs[0]));
        lemma_scan_append_plain(base, cs[0]);
        assert(segment_scan(base).1 + cs[0] =~= cs[0]);
        assert(x + cs.drop_last() =~= x);
    } else {
        let dl = cs.drop_last();
        assert(clean_components(dl)) by {
            assert forall|i: int| 0 <= i < dl.len() implies clean_component(#[trigger] dl[i]) by {
                assert(dl[i] == cs[i]);
            }
        }
        lemma_scan_joined(base, dl);
        let mid = base + joined(dl);
        let slash = mid + seq![47u8];
        assert(slash.drop_last() =~= mid);
        assert(slash.last() == 47);
        assert(clean_component(dl.last())) by {
            assert(dl.last() == cs[cs.len() - 2]);
        }
        assert(segment_scan(slash) == (x + dl.drop_last().push(dl.last()), Seq::<u8>::empty()));
        assert(x + dl.drop_last().push(dl.last()) =~= x + dl);
        assert(clean_component(cs.last()));
        lemma_scan_append_plain(slash, cs.last());
        assert(base + joined(cs) =~= slash + cs.last());
        assert(Seq::<u8>::empty() + cs.last() =~= cs.last());
    }
}

/// Normalising the path a normal form spells gives that normal form back.
pub proof fn law_normalization_is_idempotent(bytes: Seq<u8>)
    ensures
        normalized(rendered(normalized(bytes))) == normalized(bytes),
{
    let p = normalized(bytes);
    law_normal_form_is_clean(bytes);
    let cs = p.components;
    let base: Seq<u8> = if p.absolute {
        seq![47u8]
    } else {
        Seq::empty()
    };
    let r = rendered(p);
    assert(r == base + joined(cs));
    if p.absolute {
        assert(base.drop_last() =~= Seq::<u8>::empty());
        assert(segment_scan(Seq::<u8>::empty()) == (Seq::<Seq<u8>>::empty(), Seq::<u8>::empty()));
        assert(base.len() == 1 && base.last() == 47);
        assert(segment_scan(base) == (
            apply_segment(Seq::<Seq<u8>>::empty(), Seq::<u8>::empty()),
            Seq::<u8>::empty(),
        ));
    }
    assert(segment_scan(base).0 =~= Seq::<Seq<u8>>::empty());
    if cs.len() == 0 {
        assert(r =~= base);
        assert(apply_segment(segment_scan(base).0, segment_scan(base).1) =~= cs);
        assert(normalized(r).components =~= cs);
    } else {
        lemma_scan_joined(base, cs);
        assert(clean_component(cs.last()));
        assert(segment_scan(base).0 + cs.drop_last() =~= cs.drop_last());
        assert(apply_segment(cs.drop_last(), cs.last()) =~= cs);
        if !p.absolute {
            assert(r =~= joined(cs));
            lemma_joined_first(cs);
            assert(clean_component(cs[0]));
        }
    }
    assert(normalized(r).components =~= cs);
    assert(normalized(r).absolute == p.absolute);
}

proof fn lemma_joined_first(cs: Seq<Seq<u8>>)
    requires
        cs.len() > 0,
        cs[0].len() > 0,
    ensures
        joined(cs).len() > 0,
        joined(cs)[0] == cs[0][0],
    decreases cs.len(),
{
    if cs.len() > 1 {
        let dl = cs.drop_last();
        assert(dl[0] == cs[0]);
        lemma_joined_first(dl);
        assert((joined(dl) + seq![47u8] + cs.last())[0] == joined(dl)[0]);
    }
}

/// Law: folder URI equivalence is reflexive and symmetric, and a URI that names no
/// `file://` path is equivalent only to itself.
pub proof fn law_uri_equivalence(left: Seq<u8>, right: Seq<u8>)
    ensures
        uris_equivalent(left, left),
        uris_equivalent(left, right) == uris_equivalent(right, left),
        uri_root_path(left) is None ==> (uris_equivalent(left, right) <==> left == right),
{
}

} // verus!
