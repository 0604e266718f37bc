use vstd::prelude::*;

use crate::position::{ParserPositionV0, ParserRangeV0};
use crate::registry::text_bytes;
use crate::sorting::{sort_by_range, stable_sorted, RangeKeyed, SortKey};
use crate::text::str_equal;

verus! {

/// A style module imported by a source document: the binding it is imported as,
/// and the URI of the style document.
#[derive(Debug, Clone, PartialEq, Eq)]
pub struct StyleImportBinding {
    pub binding: String,
    pub style_uri: String,
}

/// Imports are ordered by their binding alone.
impl RangeKeyed for StyleImportBinding {
    open spec fn sort_group(&self) -> Seq<u8> {
        text_bytes(self.binding)
    }

    fn group_key(&self) -> (res: &[u8]) {
        self.binding.as_str().as_bytes()
    }

    open spec fn sort_range(&self) -> ParserRangeV0 {
        ParserRangeV0 {
            start: ParserPositionV0 { line: 0, character: 0 },
            end: ParserPositionV0 { line: 0, character: 0 },
        }
    }

    fn range_key(&self) -> (res: ParserRangeV0) {
        ParserRangeV0 {
            start: ParserPositionV0 { line: 0, character: 0 },
            end: ParserPositionV0 { line: 0, character: 0 },
        }
    }

    open spec fn sort_name(&self) -> Seq<u8> {
        Seq::empty()
    }

    fn name_key(&self) -> (res: &[u8]) {
        &[]
    }
}

/// Whether two imports bind the same name to the same style document.
pub open spec fn same_import(a: StyleImportBinding, b: StyleImportBinding) -> bool {
    a.binding@ == b.binding@ && a.style_uri@ == b.style_uri@
}

/// `s` with every import dropped that repeats the one kept just before it.
pub open spec fn dedup_imports(s: Seq<StyleImportBinding>) -> Seq<StyleImportBinding>
    decreases s.len(),
{
    if s.len() == 0 {
        s
    } else {
        let kept = dedup_imports(s.drop_last());
        if kept.len() > 0 && same_import(kept.last(), s.last()) {
            kept
        } else {
            kept.push(s.last())
        }
    }
}

/// The imports sorted stably by binding (byte order), with repeats of one import
/// next to each other dropped.
pub fn sort_and_dedup_imports(imports: Vec<StyleImportBinding>) -> (res: Vec<StyleImportBinding>)
    ensures
        res@ == dedup_imports(stable_sorted(imports@, SortKey::GroupStart)),
{
    let sorted = sort_by_range(imports, SortKey::GroupStart);
    let ghost all = sorted@;
    let n = sorted.len();
    let mut rest = sorted;
    let mut res: Vec<StyleImportBinding> = Vec::new();
    let mut i: usize = 0;
    assert(all.subrange(0, 0) =~= Seq::<StyleImportBinding>::empty());
    assert(all.subrange(0, all.len() as int) =~= all);
    while rest.len() > 0
        invariant
            i <= all.len(),
            all.len() == n,
            rest@ == all.subrange(i as int, all.len() as int),
            res@ == dedup_imports(all.subrange(0, i as int)),
        decreases rest@.len(),
    {
        let x = rest.remove(0);
        proof {
            let prefix = all.subrange(0, i + 1);
            assert(prefix.drop_last() =~= all.subrange(0, i as int));
            assert(prefix.last() == x);
            assert(rest@ =~= all.subrange(i + 1, all.len() as int));
        }
        let repeat = res.len() > 0 && str_equal(res[res.len() - 1].binding.as_str(), x.binding.as_str())
            && str_equal(res[res.len() - 1].style_uri.as_str(), x.style_uri.as_str());
        if !repeat {
            res.push(x);
        }
        i = i + 1;
    }
    assert(all.subrange(0, i as int) =~= all);
    res
}

} // verus!
