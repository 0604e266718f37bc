use vstd::prelude::*;

use crate::bytes::{
    bytes_equal, bytes_less, bytes_precede, lemma_precede_asymmetric, lemma_precede_irreflexive,
    lemma_precede_total, lemma_precede_transitive,
};
use crate::position::ParserRangeV0;

verus! {

/// Whether `a` sorts strictly before `b`: by start position, or (`full`) by start
/// and then end position.
pub open spec fn range_key_before(full: bool, a: ParserRangeV0, b: ParserRangeV0) -> bool {
    let s = (a.start.line, a.start.character);
    let t = (b.start.line, b.start.character);
    if s.0 != t.0 {
        s.0 < t.0
    } else if s.1 != t.1 {
        s.1 < t.1
    } else if !full {
        false
    } else if a.end.line != b.end.line {
        a.end.line < b.end.line
    } else {
        a.end.character < b.end.character
    }
}

/// What values are sorted by: the start of their ranges; the start and then the
/// end; the bytes of their group and then the start; or the group, the start and
/// then the bytes of their name.
#[derive(Debug, Clone, Copy, PartialEq, Eq, Structural)]
pub enum SortKey {
    Start,
    StartEnd,
    GroupStart,
    GroupStartName,
}

/// A value ordered by the bytes of a group it belongs to (such as a document's
/// URI) and then by a range of text: ranges themselves (all in one group), and
/// what is placed at one.
pub trait RangeKeyed {
    /// The bytes of the group by which the value is ordered first.
    spec fn sort_group(&self) -> Seq<u8>;

    /// The bytes of the group by which the value is ordered first.
    fn group_key(&self) -> (res: &[u8])
        ensures
            res@ == self.sort_group(),
    ;

    /// The range by which the value is ordered within its group.
    spec fn sort_range(&self) -> ParserRangeV0;

    /// The range by which the value is ordered.
    fn range_key(&self) -> (res: ParserRangeV0)
        ensures
            res == self.sort_range(),
    ;

    /// The bytes of the name by which values at one start of one group are ordered.
    spec fn sort_name(&self) -> Seq<u8>;

    /// The bytes of the name by which values at one start of one group are ordered.
    fn name_key(&self) -> (res: &[u8])
        ensures
            res@ == self.sort_name(),
    ;
}

impl RangeKeyed for ParserRangeV0 {
    open spec fn sort_group(&self) -> Seq<u8> {
        Seq::empty()
    }

    fn group_key(&self) -> (res: &[u8]) {
        &[]
    }

    open spec fn sort_range(&self) -> ParserRangeV0 {
        *self
    }

    fn range_key(&self) -> (res: ParserRangeV0) {
        *self
    }

    open spec fn sort_name(&self) -> Seq<u8> {
        Seq::empty()
    }

    fn name_key(&self) -> (res: &[u8]) {
        &[]
    }
}

/// Whether `a` sorts strictly before `b` under `key` (see `SortKey`).
pub open spec fn sorts_before<T: RangeKeyed>(key: SortKey, a: T, b: T) -> bool {
    match key {
        SortKey::Start => range_key_before(false, a.sort_range(), b.sort_range()),
        SortKey::StartEnd => range_key_before(true, a.sort_range(), b.sort_range()),
        SortKey::GroupStart => bytes_precede(a.sort_group(), b.sort_group()) || (a.sort_group()
            == b.sort_group() && range_key_before(false, a.sort_range(), b.sort_range())),
        SortKey::GroupStartName => bytes_precede(a.sort_group(), b.sort_group()) || (
        a.sort_group() == b.sort_group() && (range_key_before(false, a.sort_range(), b.sort_range())
            || (a.sort_range().start == b.sort_range().start && bytes_precede(
            a.sort_name(),
            b.sort_name(),
        )))),
    }
}

/// `bytes_precede` is a strict total order on the three byte strings.
proof fn lemma_precede_order(a: Seq<u8>, b: Seq<u8>, c: Seq<u8>)
    ensures
        !bytes_precede(a, a),
        !bytes_precede(b, b),
        !(bytes_precede(a, b) && bytes_precede(b, a)),
        !(bytes_precede(b, c) && bytes_precede(c, b)),
        !(bytes_precede(a, c) && bytes_precede(c, a)),
        a == b || bytes_precede(a, b) || bytes_precede(b, a),
        b == c || bytes_precede(b, c) || bytes_precede(c, b),
        a == c || bytes_precede(a, c) || bytes_precede(c, a),
        bytes_precede(a, b) && bytes_precede(b, c) ==> bytes_precede(a, c),
        bytes_precede(a, c) && bytes_precede(c, b) ==> bytes_precede(a, b),
        bytes_precede(b, a) && bytes_precede(a, c) ==> bytes_precede(b, c),
        bytes_precede(c, b) && bytes_precede(b, a) ==> bytes_precede(c, a),
        bytes_precede(b, c) && bytes_precede(c, a) ==> bytes_precede(b, a),
        bytes_precede(c, a) && bytes_precede(a, b) ==> bytes_precede(c, b),
{
    lemma_precede_irreflexive(a);
    lemma_precede_irreflexive(b);
    lemma_precede_asymmetric(a, b);
    lemma_precede_asymmetric(b, c);
    lemma_precede_asymmetric(a, c);
    lemma_precede_total(a, b);
    lemma_precede_total(b, c);
    lemma_precede_total(a, c);
    if bytes_precede(a, b) && bytes_precede(b, c) {
        lemma_precede_transitive(a, b, c);
    }
    if bytes_precede(a, c) && bytes_precede(c, b) {
        lemma_precede_transitive(a, c, b);
    }
    if bytes_precede(b, a) && bytes_precede(a, c) {
        lemma_precede_transitive(b, a, c);
    }
    if bytes_precede(c, b) && bytes_precede(b, a) {
        lemma_precede_transitive(c, b, a);
    }
    if bytes_precede(b, c) && bytes_precede(c, a) {
        lemma_precede_transitive(b, c, a);
    }
    if bytes_precede(c, a) && bytes_precede(a, b) {
        lemma_precede_transitive(c, a, b);
    }
}

/// `sorts_before` is a strict weak order: asymmetric, and transitive in its
/// complement.
proof fn lemma_sorts_before_order<T: RangeKeyed>(key: SortKey, a: T, b: T, c: T)
    ensures
        sorts_before(key, a, b) ==> !sorts_before(key, b, a),
        !sorts_before(key, a, b) && !sorts_before(key, b, c) ==> !sorts_before(key, a, c),
{
    lemma_precede_order(a.sort_group(), b.sort_group(), c.sort_group());
    lemma_precede_order(a.sort_name(), b.sort_name(), c.sort_name());
}

/// `s` with `x` put after every element that does not sort after it.
pub open spec fn insert_stable<T: RangeKeyed>(s: Seq<T>, x: T, key: SortKey) -> Seq<T>
    decreases s.len(),
{
    if s.len() == 0 {
        seq![x]
    } else if sorts_before(key, x, s.last()) {
        insert_stable(s.drop_last(), x, key).push(s.last())
    } else {
        s.push(x)
    }
}

/// The stable sort of `s` by `key`: elements with equal keys keep their relative
/// order.
pub open spec fn stable_sorted<T: RangeKeyed>(s: Seq<T>, key: SortKey) -> Seq<T>
    decreases s.len(),
{
    if s.len() == 0 {
        s
    } else {
        insert_stable(stable_sorted(s.drop_last(), key), s.last(), key)
    }
}

proof fn lemma_insert_stable_at<T: RangeKeyed>(s: Seq<T>, x: T, key: SortKey, p: int)
    requires
        0 <= p <= s.len(),
        forall|j: int| p <= j < s.len() ==> sorts_before(key, x, #[trigger] s[j]),
        p == 0 || !sorts_before(key, x, s[p - 1]),
    ensures
        insert_stable(s, x, key) == s.insert(p, x),
    decreases s.len(),
{
    if s.len() == 0 {
        assert(s.insert(p, x) =~= seq![x]);
    } else if sorts_before(key, x, s.last()) {
        assert(p < s.len());
        lemma_insert_stable_at(s.drop_last(), x, key, p);
        assert(s.drop_last().insert(p, x).push(s.last()) =~= s.insert(p, x));
    } else {
        assert(p == s.len());
        assert(s.push(x) =~= s.insert(p, x));
    }
}

/// Inserting stably puts the value in at one place and moves nothing else.
pub proof fn lemma_insert_stable_is_insert<T: RangeKeyed>(s: Seq<T>, x: T, key: SortKey) -> (p: int)
    ensures
        0 <= p <= s.len(),
        insert_stable(s, x, key) == s.insert(p, x),
    decreases s.len(),
{
    if s.len() == 0 {
        assert(s.insert(0, x) =~= seq![x]);
        0
    } else if sorts_before(key, x, s.last()) {
        let p = lemma_insert_stable_is_insert(s.drop_last(), x, key);
        assert(s.drop_last().insert(p, x).push(s.last()) =~= s.insert(p, x));
        p
    } else {
        assert(s.push(x) =~= s.insert(s.len() as int, x));
        s.len() as int
    }
}

/// Whether `s` is in order: no element sorts strictly before an earlier one.
pub open spec fn ranges_in_order<T: RangeKeyed>(s: Seq<T>, key: SortKey) -> bool {
    forall|i: int, j: int| 0 <= i < j < s.len() ==> !sorts_before(key, #[trigger] s[j], #[trigger] s[i])
}

proof fn lemma_insert_stable_multiset<T: RangeKeyed>(s: Seq<T>, x: T, key: SortKey)
    ensures
        insert_stable(s, x, key).to_multiset() == s.to_multiset().insert(x),
    decreases s.len(),
{
    broadcast use vstd::seq_lib::group_to_multiset_ensures;

    if s.len() == 0 {
        assert(seq![x] =~= Seq::<T>::empty().push(x));
    } else if sorts_before(key, x, s.last()) {
        lemma_insert_stable_multiset(s.drop_last(), x, key);
        assert(s.drop_last().push(s.last()) =~= s);
    }
}

proof fn lemma_insert_stable_in_order<T: RangeKeyed>(s: Seq<T>, x: T, key: SortKey)
    requires
        ranges_in_order(s, key),
    ensures
        ranges_in_order(insert_stable(s, x, key), key),
    decreases s.len(),
{
    broadcast use vstd::seq_lib::group_to_multiset_ensures;

    if s.len() == 0 {
    } else if sorts_before(key, x, s.last()) {
        let t = s.drop_last();
        lemma_insert_stable_in_order(t, x, key);
        lemma_insert_stable_multiset(t, x, key);
        let r = insert_stable(t, x, key);
        lemma_sorts_before_order(key, x, s.last(), x);
        assert forall|i: int| 0 <= i < r.len() implies !sorts_before(key, s.last(), #[trigger] r[i]) by {
            assert(r.to_multiset().count(r[i]) > 0);
            if r[i] != x {
                assert(t.to_multiset().count(r[i]) > 0);
                let k = choose|k: int| 0 <= k < t.len() && t[k] == r[i];
                assert(s[k] == t[k]);
                assert(!sorts_before(key, s[s.len() - 1], s[k]));
            }
        }
        let u = r.push(s.last());
        assert forall|i: int, j: int| 0 <= i < j < u.len() implies !sorts_before(
            key,
            #[trigger] u[j],
            #[trigger] u[i],
        ) by {
            if j == u.len() - 1 {
                assert(u[j] == s.last());
                assert(u[i] == r[i]);
            } else {
                assert(u[i] == r[i] && u[j] == r[j]);
            }
        }
    } else {
        let u = s.push(x);
        assert forall|i: int, j: int| 0 <= i < j < u.len() implies !sorts_before(
            key,
            #[trigger] u[j],
            #[trigger] u[i],
        ) by {
            if j == u.len() - 1 {
                assert(u[j] == x);
                assert(u[i] == s[i]);
                if i < s.len() - 1 {
                    assert(!sorts_before(key, s[s.len() - 1], s[i]));
                    lemma_sorts_before_order(key, x, s[s.len() - 1], s[i]);
                }
            } else {
                assert(u[i] == s[i] && u[j] == s[j]);
            }
        }
    }
}

/// Sorting puts the values in order of their ranges and keeps each of them, as
/// often as it came: the result is an ordered permutation of the input.
pub proof fn law_sorted_ranges_are_ordered_permutation<T: RangeKeyed>(s: Seq<T>, key: SortKey)
    ensures
        ranges_in_order(stable_sorted(s, key), key),
        stable_sorted(s, key).to_multiset() == s.to_multiset(),
    decreases s.len(),
{
    broadcast use vstd::seq_lib::group_to_multiset_ensures;

    if s.len() > 0 {
        law_sorted_ranges_are_ordered_permutation(s.drop_last(), key);
        lemma_insert_stable_in_order(stable_sorted(s.drop_last(), key), s.last(), key);
        lemma_insert_stable_multiset(stable_sorted(s.drop_last(), key), s.last(), key);
        assert(s.drop_last().push(s.last()) =~= s);
    } else {
        assert(s.to_multiset() =~= vstd::multiset::Multiset::empty());
    }
}

/// Sorting keeps the number of values.
pub proof fn lemma_stable_sorted_len<T: RangeKeyed>(s: Seq<T>, key: SortKey)
    ensures
        stable_sorted(s, key).len() == s.len(),
{
    broadcast use vstd::seq_lib::group_to_multiset_ensures;

    law_sorted_ranges_are_ordered_permutation(s, key);
    assert(stable_sorted(s, key).to_multiset().len() == s.to_multiset().len());
}

fn key_before(full: bool, a: &ParserRangeV0, b: &ParserRangeV0) -> (res: bool)
    ensures
        res == range_key_before(full, *a, *b),
{
    if a.start.line != b.start.line {
        a.start.line < b.start.line
    } else if a.start.character != b.start.character {
        a.start.character < b.start.character
    } else if !full {
        false
    } else if a.end.line != b.end.line {
        a.end.line < b.end.line
    } else {
        a.end.character < b.end.character
    }
}

fn item_before<T: RangeKeyed>(key: SortKey, a: &T, b: &T) -> (res: bool)
    ensures
        res == sorts_before(key, *a, *b),
{
    match key {
        SortKey::Start => key_before(false, &a.range_key(), &b.range_key()),
        SortKey::StartEnd => key_before(true, &a.range_key(), &b.range_key()),
        SortKey::GroupStart => {
            let (ga, gb) = (a.group_key(), b.group_key());
            bytes_less(ga, gb) || (bytes_equal(ga, gb) && key_before(false, &a.range_key(), &b.range_key()))
        },
        SortKey::GroupStartName => {
            let (ga, gb) = (a.group_key(), b.group_key());
            if bytes_less(ga, gb) {
                true
            } else if !bytes_equal(ga, gb) {
                false
            } else {
                let (ra, rb) = (a.range_key(), b.range_key());
                key_before(false, &ra, &rb) || (ra.start.line == rb.start.line
                    && ra.start.character == rb.start.character && bytes_less(
                    a.name_key(),
                    b.name_key(),
                ))
            }
        },
    }
}

/// The values sorted stably by `key`.
pub fn sort_by_range<T: RangeKeyed>(items: Vec<T>, key: SortKey) -> (res: Vec<T>)
    ensures
        res@ == stable_sorted(items@, key),
{
    let ghost all = items@;
    let n = items.len();
    let mut rest = items;
    let mut res: Vec<T> = Vec::new();
    let mut i: usize = 0;
    assert(all.subrange(0, 0) =~= Seq::<T>::empty());
    assert(all.subrange(0, all.len() as int) =~= all);
    while rest.len() > 0
        invariant
            i <= all.len(),
            all.len() == n,
            rest@ == all.subrange(i as int, all.len() as int),
            res@ == stable_sorted(all.subrange(0, i as int), key),
        decreases rest@.len(),
    {
        let x = rest.remove(0);
        let mut p = res.len();
        while p > 0 && item_before(key, &x, &res[p - 1])
            invariant
                p <= res@.len(),
                forall|j: int| p <= j < res@.len() ==> sorts_before(key, x, #[trigger] res@[j]),
            decreases p,
        {
            p = p - 1;
        }
        proof {
            lemma_insert_stable_at(res@, x, key, p as int);
            let prefix = all.subrange(0, i + 1);
            assert(prefix.drop_last() =~= all.subrange(0, i as int));
            assert(prefix.last() == x);
            assert(rest@ =~= all.subrange(i + 1, all.len() as int));
        }
        res.insert(p, x);
        i = i + 1;
    }
    assert(all.subrange(0, i as int) =~= all);
    res
}

} // verus!
