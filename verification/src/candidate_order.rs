use vstd::prelude::*;
use vstd::string::StringSliceAdditionalSpecFns;
use vstd::utf8::{encode_utf8, encode_utf8_decode_utf8};

use crate::bytes::{
    bytes_equal, bytes_less, bytes_precede, lemma_precede_asymmetric, lemma_precede_irreflexive,
    lemma_precede_total, lemma_precede_transitive,
};
use crate::documents::LspStyleHoverCandidate;
use crate::position::{ParserPositionV0, ParserRangeV0};
use crate::publications::opt_view;

verus! {

/// Whether text `a` sorts strictly before text `b`: by the bytes of their UTF-8
/// encodings, as strings are ordered.
pub open spec fn text_before(a: Seq<char>, b: Seq<char>) -> bool {
    bytes_precede(encode_utf8(a), encode_utf8(b))
}

/// Whether an optional text sorts strictly before another: no text first, then
/// texts in their order.
pub open spec fn opt_text_before(a: Option<Seq<char>>, b: Option<Seq<char>>) -> bool {
    match (a, b) {
        (None, Some(_)) => true,
        (Some(x), Some(y)) => text_before(x, y),
        _ => false,
    }
}

/// Whether position `a` comes strictly before position `b`.
pub open spec fn position_before(a: ParserPositionV0, b: ParserPositionV0) -> bool {
    a.line < b.line || (a.line == b.line && a.character < b.character)
}

/// Whether range `a` sorts strictly before range `b`: by start, then by end.
pub open spec fn range_before(a: ParserRangeV0, b: ParserRangeV0) -> bool {
    position_before(a.start, b.start) || (a.start == b.start && position_before(a.end, b.end))
}

/// What a candidate is, by value: its kind, name, range, source, target style
/// document and namespace.
pub open spec fn candidate_view(c: LspStyleHoverCandidate) -> (
    Seq<char>,
    Seq<char>,
    ParserRangeV0,
    Seq<char>,
    Option<Seq<char>>,
    Option<Seq<char>>,
) {
    (c.kind@, c.name@, c.range, c.source@, opt_view(c.target_style_uri), opt_view(c.namespace))
}

/// Whether candidate `a` sorts strictly before candidate `b`: field by field, in
/// the order kind, name, range, source, target style document, namespace.
pub open spec fn candidate_before(a: LspStyleHoverCandidate, b: LspStyleHoverCandidate) -> bool {
    let (x, y) = (candidate_view(a), candidate_view(b));
    if x.0 != y.0 {
        text_before(x.0, y.0)
    } else if x.1 != y.1 {
        text_before(x.1, y.1)
    } else if x.2 != y.2 {
        range_before(x.2, y.2)
    } else if x.3 != y.3 {
        text_before(x.3, y.3)
    } else if x.4 != y.4 {
        opt_text_before(x.4, y.4)
    } else {
        opt_text_before(x.5, y.5)
    }
}

/// Each candidate's value once, in strictly increasing order.
pub open spec fn candidates_ascending(s: Seq<LspStyleHoverCandidate>) -> bool {
    forall|i: int, j: int| 0 <= i < j < s.len() ==> candidate_before(#[trigger] s[i], #[trigger] s[j])
}

/// The values of the candidates of `s`.
pub open spec fn candidate_values(s: Seq<LspStyleHoverCandidate>) -> Set<
    (Seq<char>, Seq<char>, ParserRangeV0, Seq<char>, Option<Seq<char>>, Option<Seq<char>>),
> {
    Set::new(
        |v: (Seq<char>, Seq<char>, ParserRangeV0, Seq<char>, Option<Seq<char>>, Option<Seq<char>>)|
            exists|i: int| 0 <= i < s.len() && candidate_view(#[trigger] s[i]) == v,
    )
}

/// `text_before` is a strict total order.
proof fn lemma_text_order(a: Seq<char>, b: Seq<char>, c: Seq<char>)
    ensures
        !text_before(a, a),
        text_before(a, b) ==> !text_before(b, a),
        text_before(a, b) && text_before(b, c) ==> text_before(a, c),
        a != b ==> text_before(a, b) || text_before(b, a),
{
    let (x, y, z) = (encode_utf8(a), encode_utf8(b), encode_utf8(c));
    encode_utf8_decode_utf8(a);
    encode_utf8_decode_utf8(b);
    lemma_precede_irreflexive(x);
    lemma_precede_asymmetric(x, y);
    lemma_precede_total(x, y);
    if bytes_precede(x, y) && bytes_precede(y, z) {
        lemma_precede_transitive(x, y, z);
    }
}

/// `opt_text_before` is a strict total order.
proof fn lemma_opt_text_order(a: Option<Seq<char>>, b: Option<Seq<char>>, c: Option<Seq<char>>)
    ensures
        !opt_text_before(a, a),
        opt_text_before(a, b) ==> !opt_text_before(b, a),
        opt_text_before(a, b) && opt_text_before(b, c) ==> opt_text_before(a, c),
        a != b ==> opt_text_before(a, b) || opt_text_before(b, a),
{
    if a is Some && b is Some && c is Some {
        lemma_text_order(a->0, b->0, c->0);
    } else if a is Some && b is Some {
        lemma_text_order(a->0, b->0, a->0);
    } else if a is Some {
        lemma_text_order(a->0, a->0, a->0);
    }
}

/// `candidate_before` is a strict order, total on candidates of different values.
pub proof fn lemma_candidate_order(a: LspStyleHoverCandidate, b: LspStyleHoverCandidate, c: LspStyleHoverCandidate)
    ensures
        !candidate_before(a, a),
        candidate_before(a, b) ==> !candidate_before(b, a),
        candidate_before(a, b) && candidate_before(b, c) ==> candidate_before(a, c),
        candidate_view(a) != candidate_view(b) ==> candidate_before(a, b) || candidate_before(b, a),
{
    let (x, y, z) = (candidate_view(a), candidate_view(b), candidate_view(c));
    lemma_text_order(x.0, y.0, z.0);
    lemma_text_order(x.1, y.1, z.1);
    lemma_text_order(x.3, y.3, z.3);
    lemma_opt_text_order(x.4, y.4, z.4);
    lemma_opt_text_order(x.5, y.5, z.5);
    lemma_text_order(x.0, z.0, y.0);
    lemma_text_order(x.1, z.1, y.1);
    lemma_text_order(x.3, z.3, y.3);
    lemma_opt_text_order(x.4, z.4, y.4);
    lemma_opt_text_order(x.5, z.5, y.5);
}

/// In an ascending sequence the first candidate comes before every later one, so
/// no later candidate has its value.
proof fn lemma_first_is_least(s: Seq<LspStyleHoverCandidate>, v: (
    Seq<char>,
    Seq<char>,
    ParserRangeV0,
    Seq<char>,
    Option<Seq<char>>,
    Option<Seq<char>>,
))
    requires
        candidates_ascending(s),
        s.len() > 0,
        candidate_values(s).contains(v),
    ensures
        v == candidate_view(s[0]) || exists|k: int| 0 < k < s.len() && candidate_view(s[k]) == v
            && candidate_before(s[0], s[k]),
{
    let k = choose|k: int| 0 <= k < s.len() && candidate_view(#[trigger] s[k]) == v;
    if k > 0 {
        assert(candidate_before(s[0], s[k]));
    }
}

/// Ascending sequences with the same values are the same sequence of values: the
/// order and the values together determine what sorting and dropping repeats gives.
pub proof fn law_ascending_candidates_are_determined_by_their_values(
    s: Seq<LspStyleHoverCandidate>,
    t: Seq<LspStyleHoverCandidate>,
)
    requires
        candidates_ascending(s),
        candidates_ascending(t),
        candidate_values(s) == candidate_values(t),
    ensures
        s.len() == t.len(),
        forall|i: int| 0 <= i < s.len() ==> candidate_view(#[trigger] s[i]) == candidate_view(t[i]),
    decreases s.len() + t.len(),
{
    if s.len() == 0 || t.len() == 0 {
        if s.len() > 0 {
            assert(candidate_values(s).contains(candidate_view(s[0])));
        }
        if t.len() > 0 {
            assert(candidate_values(t).contains(candidate_view(t[0])));
        }
        return;
    }
    let (a, b) = (s[0], t[0]);
    assert(candidate_values(s).contains(candidate_view(a)));
    assert(candidate_values(t).contains(candidate_view(b)));
    lemma_first_is_least(s, candidate_view(b));
    lemma_first_is_least(t, candidate_view(a));
    if candidate_view(a) != candidate_view(b) {
        let k = choose|k: int| 0 < k < s.len() && candidate_view(s[k]) == candidate_view(b)
            && candidate_before(s[0], s[k]);
        let m = choose|m: int| 0 < m < t.len() && candidate_view(t[m]) == candidate_view(a)
            && candidate_before(t[0], t[m]);
        assert(candidate_before(a, b));
        assert(candidate_before(b, a));
        lemma_candidate_order(a, b, a);
        assert(false);
    }
    let (s1, t1) = (s.drop_first(), t.drop_first());
    assert(candidates_ascending(s1)) by {
        assert forall|i: int, j: int| 0 <= i < j < s1.len() implies candidate_before(
            #[trigger] s1[i],
            #[trigger] s1[j],
        ) by {
            assert(s1[i] == s[i + 1] && s1[j] == s[j + 1]);
        }
    }
    assert(candidates_ascending(t1)) by {
        assert forall|i: int, j: int| 0 <= i < j < t1.len() implies candidate_before(
            #[trigger] t1[i],
            #[trigger] t1[j],
        ) by {
            assert(t1[i] == t[i + 1] && t1[j] == t[j + 1]);
        }
    }
    assert(candidate_values(s1) =~= candidate_values(s).remove(candidate_view(a))) by {
        assert forall|v| candidate_values(s1).contains(v) implies candidate_values(s).remove(
            candidate_view(a),
        ).contains(v) by {
            let k = choose|k: int| 0 <= k < s1.len() && candidate_view(#[trigger] s1[k]) == v;
            assert(s1[k] == s[k + 1]);
            assert(candidate_before(s[0], s[k + 1]));
            lemma_candidate_order(s[0], s[0], s[0]);
        }
        assert forall|v| candidate_values(s).remove(candidate_view(a)).contains(v) implies candidate_values(
            s1,
        ).contains(v) by {
            let k = choose|k: int| 0 <= k < s.len() && candidate_view(#[trigger] s[k]) == v;
            assert(k > 0);
            assert(s1[k - 1] == s[k]);
        }
    }
    assert(candidate_values(t1) =~= candidate_values(t).remove(candidate_view(b))) by {
        assert forall|v| candidate_values(t1).contains(v) implies candidate_values(t).remove(
            candidate_view(b),
        ).contains(v) by {
            let k = choose|k: int| 0 <= k < t1.len() && candidate_view(#[trigger] t1[k]) == v;
            assert(t1[k] == t[k + 1]);
            assert(candidate_before(t[0], t[k + 1]));
            lemma_candidate_order(t[0], t[0], t[0]);
        }
        assert forall|v| candidate_values(t).remove(candidate_view(b)).contains(v) implies candidate_values(
            t1,
        ).contains(v) by {
            let k = choose|k: int| 0 <= k < t.len() && candidate_view(#[trigger] t[k]) == v;
            assert(k > 0);
            assert(t1[k - 1] == t[k]);
        }
    }
    law_ascending_candidates_are_determined_by_their_values(s1, t1);
    assert forall|i: int| 0 <= i < s.len() implies candidate_view(#[trigger] s[i]) == candidate_view(
        t[i],
    ) by {
        if i > 0 {
            assert(s1[i - 1] == s[i] && t1[i - 1] == t[i]);
        }
    }
}

fn text_less(a: &str, b: &str) -> (res: bool)
    ensures
        res == text_before(a@, b@),
{
    bytes_less(a.as_bytes(), b.as_bytes())
}

fn text_same(a: &str, b: &str) -> (res: bool)
    ensures
        res == (a@ == b@),
{
    proof {
        encode_utf8_decode_utf8(a@);
        encode_utf8_decode_utf8(b@);
    }
    bytes_equal(a.as_bytes(), b.as_bytes())
}

fn opt_text_same(a: &Option<String>, b: &Option<String>) -> (res: bool)
    ensures
        res == (opt_view(*a) == opt_view(*b)),
{
    match (a, b) {
        (Some(x), Some(y)) => text_same(x.as_str(), y.as_str()),
        (None, None) => true,
        _ => false,
    }
}

fn opt_text_less(a: &Option<String>, b: &Option<String>) -> (res: bool)
    ensures
        res == opt_text_before(opt_view(*a), opt_view(*b)),
{
    match (a, b) {
        (None, Some(_)) => true,
        (Some(x), Some(y)) => text_less(x.as_str(), y.as_str()),
        _ => false,
    }
}

fn position_less(a: ParserPositionV0, b: ParserPositionV0) -> (res: bool)
    ensures
        res == position_before(a, b),
{
    a.line < b.line || (a.line == b.line && a.character < b.character)
}

fn same_position(a: ParserPositionV0, b: ParserPositionV0) -> (res: bool)
    ensures
        res == (a == b),
{
    a.line == b.line && a.character == b.character
}

fn same_range(a: ParserRangeV0, b: ParserRangeV0) -> (res: bool)
    ensures
        res == (a == b),
{
    same_position(a.start, b.start) && same_position(a.end, b.end)
}

/// Whether two candidates have the same value.
pub fn same_candidate(a: &LspStyleHoverCandidate, b: &LspStyleHoverCandidate) -> (res: bool)
    ensures
        res == (candidate_view(*a) == candidate_view(*b)),
{
    text_same(a.kind, b.kind) && text_same(a.name.as_str(), b.name.as_str()) && same_range(
        a.range,
        b.range,
    ) && text_same(a.source, b.source) && opt_text_same(&a.target_style_uri, &b.target_style_uri)
        && opt_text_same(&a.namespace, &b.namespace)
}

/// Whether candidate `a` sorts strictly before candidate `b` (see
/// `candidate_before`).
pub fn candidate_less(a: &LspStyleHoverCandidate, b: &LspStyleHoverCandidate) -> (res: bool)
    ensures
        res == candidate_before(*a, *b),
{
    if !text_same(a.kind, b.kind) {
        text_less(a.kind, b.kind)
    } else if !text_same(a.name.as_str(), b.name.as_str()) {
        text_less(a.name.as_str(), b.name.as_str())
    } else if !same_range(a.range, b.range) {
        position_less(a.range.start, b.range.start) || (same_position(a.range.start, b.range.start)
            && position_less(a.range.end, b.range.end))
    } else if !text_same(a.source, b.source) {
        text_less(a.source, b.source)
    } else if !opt_text_same(&a.target_style_uri, &b.target_style_uri) {
        opt_text_less(&a.target_style_uri, &b.target_style_uri)
    } else {
        opt_text_less(&a.namespace, &b.namespace)
    }
}

/// The candidates sorted, each value once: strictly increasing in candidate order,
/// with the values of the input and no others.
pub fn sort_and_dedup_candidates(candidates: Vec<LspStyleHoverCandidate>) -> (res: Vec<
    LspStyleHoverCandidate,
>)
    ensures
        candidates_ascending(res@),
        candidate_values(res@) == candidate_values(candidates@),
{
    let ghost all = candidates@;
    let n = candidates.len();
    let mut rest = candidates;
    let mut res: Vec<LspStyleHoverCandidate> = Vec::new();
    let mut i: usize = 0;
    assert(all.subrange(0, 0) =~= Seq::<LspStyleHoverCandidate>::empty());
    assert(candidate_values(res@) =~= candidate_values(all.subrange(0, 0)));
    while rest.len() > 0
        invariant
            i <= all.len(),
            all.len() == n,
            rest@ == all.subrange(i as int, all.len() as int),
            candidates_ascending(res@),
            candidate_values(res@) == candidate_values(all.subrange(0, i as int)),
        decreases rest@.len(),
    {
        let x = rest.remove(0);
        proof {
            assert(rest@ =~= all.subrange(i + 1, all.len() as int));
            assert(all[i as int] == x);
        }
        let mut p: usize = 0;
        while p < res.len() && candidate_less(&res[p], &x)
            invariant
                p <= res@.len(),
                forall|j: int| 0 <= j < p ==> candidate_before(#[trigger] res@[j], x),
            decreases res@.len() - p,
        {
            p = p + 1;
        }
        let found = p < res.len() && same_candidate(&res[p], &x);
        let ghost before = res@;
        if !found {
            res.insert(p, x);
            proof {
                assert forall|a: int, b: int| 0 <= a < b < res@.len() implies candidate_before(
                    #[trigger] res@[a],
                    #[trigger] res@[b],
                ) by {
                    if p < before.len() {
                        lemma_candidate_order(before[p as int], x, x);
                        lemma_candidate_order(x, before[p as int], x);
                    }
                    if b == p {
                        assert(res@[a] == before[a]);
                    } else if a == p {
                        assert(res@[b] == before[b - 1]);
                        if b - 1 > p {
                            assert(candidate_before(before[p as int], before[b - 1]));
                            lemma_candidate_order(x, before[p as int], before[b - 1]);
                        }
                    } else if b < p {
                        assert(res@[a] == before[a] && res@[b] == before[b]);
                    } else if a < p {
                        assert(res@[a] == before[a] && res@[b] == before[b - 1]);
                    } else {
                        assert(res@[a] == before[a - 1] && res@[b] == before[b - 1]);
                    }
                }
            }
        }
        proof {
            let prefix = all.subrange(0, i + 1);
            assert(prefix.drop_last() =~= all.subrange(0, i as int));
            assert(candidate_values(res@) =~= candidate_values(before).insert(candidate_view(x))) by {
                if found {
                    assert(candidate_view(before[p as int]) == candidate_view(x));
                } else {
                    assert forall|v| candidate_values(res@).contains(v) implies candidate_values(
                        before,
                    ).insert(candidate_view(x)).contains(v) by {
                        let k = choose|k: int| 0 <= k < res@.len() && candidate_view(res@[k]) == v;
                        if k < p {
                            assert(res@[k] == before[k]);
                        } else if k > p {
                            assert(res@[k] == before[k - 1]);
                        }
                    }
                    assert forall|v| candidate_values(before).insert(candidate_view(x)).contains(
                        v,
                    ) implies candidate_values(res@).contains(v) by {
                        if v == candidate_view(x) {
                            assert(res@[p as int] == x);
                        } else {
                            let k = choose|k: int|
                                0 <= k < before.len() && candidate_view(before[k]) == v;
                            if k < p {
                                assert(res@[k] == before[k]);
                            } else {
                                assert(res@[k + 1] == before[k]);
                            }
                        }
                    }
                }
            }
            assert(candidate_values(prefix) =~= candidate_values(prefix.drop_last()).insert(
                candidate_view(x),
            )) by {
                assert forall|v| candidate_values(prefix).contains(v) implies candidate_values(
                    prefix.drop_last(),
                ).insert(candidate_view(x)).contains(v) by {
                    let k = choose|k: int| 0 <= k < prefix.len() && candidate_view(prefix[k]) == v;
                    if k < i {
                        assert(prefix.drop_last()[k] == prefix[k]);
                    }
                }
                assert forall|v| candidate_values(prefix.drop_last()).insert(
                    candidate_view(x),
                ).contains(v) implies candidate_values(prefix).contains(v) by {
                    if v == candidate_view(x) {
                        assert(prefix[i as int] == x);
                    } else {
                        let k = choose|k: int|
                            0 <= k < prefix.drop_last().len() && candidate_view(
                                prefix.drop_last()[k],
                            ) == v;
                        assert(prefix[k] == prefix.drop_last()[k]);
                    }
                }
            }
        }
        i = i + 1;
    }
    assert(all.subrange(0, i as int) =~= all);
    res
}

} // verus!
