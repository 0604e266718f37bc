use vstd::prelude::*;
use vstd::string::StringSliceAdditionalSpecFns;
use vstd::utf8::encode_utf8_decode_utf8;

use crate::bytes::{
    bytes_equal, bytes_less, bytes_precede, lemma_precede_irreflexive, lemma_precede_total,
    lemma_precede_transitive,
};
use crate::registry::text_bytes;

verus! {

/// A set of URIs, held in strictly increasing byte order.
#[derive(Debug)]
pub struct UriSet {
    uris: Vec<String>,
}

/// Strings held in strictly increasing byte order.
pub open spec fn strings_sorted(s: Seq<String>) -> bool {
    forall|i: int, j: int| 0 <= i < j < s.len() ==> bytes_precede(text_bytes(s[i]), text_bytes(s[j]))
}

/// The texts of a sequence of strings.
pub open spec fn members(s: Seq<String>) -> Set<Seq<char>> {
    Set::new(|u: Seq<char>| exists|i: int| 0 <= i < s.len() && s[i]@ == u)
}

fn string_bytes(s: &String) -> (res: &[u8])
    ensures
        res@ == text_bytes(*s),
{
    s.as_str().as_bytes()
}

impl UriSet {
    /// The URIs in order.
    pub closed spec fn view(&self) -> Seq<String> {
        self.uris@
    }

    /// The URIs are in strictly increasing order.
    pub open spec fn wf(&self) -> bool {
        strings_sorted(self.view())
    }

    /// The texts of the URIs.
    pub open spec fn set(&self) -> Set<Seq<char>> {
        members(self.view())
    }

    /// The empty set.
    pub fn new() -> (res: Self)
        ensures
            res.wf(),
            res.view().len() == 0,
            res.set() == Set::<Seq<char>>::empty(),
    {
        let res = UriSet { uris: Vec::new() };
        assert(res.set() =~= Set::<Seq<char>>::empty());
        res
    }

    /// The URIs, in order.
    pub fn as_slice(&self) -> (res: &[String])
        ensures
            res@ == self.view(),
    {
        self.uris.as_slice()
    }

    /// The URIs, in order.
    pub fn into_vec(self) -> (res: Vec<String>)
        ensures
            res@ == self.view(),
    {
        self.uris
    }

    /// Where `uri` would stand: the first position whose URI does not precede it,
    /// and whether that URI is `uri`.
    fn locate(&self, uri: &str) -> (res: (usize, bool))
        requires
            self.wf(),
        ensures
            res.0 <= self.view().len(),
            forall|j: int| 0 <= j < res.0 ==> bytes_precede(text_bytes(self.view()[j]), uri.spec_bytes()),
            forall|j: int|
                res.0 <= j < self.view().len() ==> text_bytes(self.view()[j]) == uri.spec_bytes()
                    || bytes_precede(uri.spec_bytes(), text_bytes(self.view()[j])),
            res.1 == (res.0 < self.view().len() && self.view()[res.0 as int]@ == uri@),
            res.1 == members(self.view()).contains(uri@),
            res.1 ==> forall|j: int|
                0 <= j < self.view().len() && self.view()[j]@ == uri@ ==> j == res.0,
    {
        let key = uri.as_bytes();
        let ghost v = self.view();
        let ghost k = key@;
        let mut i: usize = 0;
        while i < self.uris.len() && bytes_less(string_bytes(&self.uris[i]), key)
            invariant
                v == self.view(),
                self.wf(),
                i <= v.len(),
                k == key@,
                k == uri.spec_bytes(),
                forall|j: int| 0 <= j < i ==> bytes_precede(text_bytes(v[j]), k),
            decreases v.len() - i,
        {
            i = i + 1;
        }
        let found = i < self.uris.len() && bytes_equal(string_bytes(&self.uris[i]), key);
        proof {
            if i < v.len() {
                lemma_precede_total(text_bytes(v[i as int]), k);
                assert forall|j: int| i <= j < v.len() implies text_bytes(v[j]) == k
                    || bytes_precede(k, text_bytes(v[j])) by {
                    if j > i {
                        assert(bytes_precede(text_bytes(v[i as int]), text_bytes(v[j])));
                        if text_bytes(v[i as int]) == k {
                        } else {
                            lemma_precede_transitive(k, text_bytes(v[i as int]), text_bytes(v[j]));
                        }
                    }
                }
            }
            encode_utf8_decode_utf8(uri@);
            if found {
                encode_utf8_decode_utf8(v[i as int]@);
                assert(members(v).contains(uri@));
            }
            assert forall|j: int| 0 <= j < v.len() && v[j]@ == uri@ implies j == i && found by {
                encode_utf8_decode_utf8(v[j]@);
                if j < i {
                    lemma_precede_irreflexive(k);
                } else if j > i {
                    assert(bytes_precede(text_bytes(v[i as int]), text_bytes(v[j])));
                    if !found {
                        if text_bytes(v[i as int]) == k {
                            encode_utf8_decode_utf8(v[i as int]@);
                        }
                        lemma_precede_transitive(k, text_bytes(v[i as int]), text_bytes(v[j]));
                    }
                    lemma_precede_irreflexive(k);
                }
            }
            if found {
                encode_utf8_decode_utf8(v[i as int]@);
            }
        }
        (i, found)
    }

    /// Whether `uri` is in the set.
    pub fn contains(&self, uri: &str) -> (res: bool)
        requires
            self.wf(),
        ensures
            res == self.set().contains(uri@),
    {
        let (_, found) = self.locate(uri);
        found
    }

    /// Adds `uri`.
    pub fn insert(&mut self, uri: &str)
        requires
            old(self).wf(),
        ensures
            final(self).wf(),
            final(self).set() == old(self).set().insert(uri@),
    {
        let ghost before = self.view();
        let (i, found) = self.locate(uri);
        if found {
            proof {
                assert(members(before).insert(uri@) =~= members(before));
            }
            return;
        }
        let owned = uri.to_owned();
        proof {
            encode_utf8_decode_utf8(uri@);
        }
        self.uris.insert(i, owned);
        proof {
            let k = uri.spec_bytes();
            assert(self.view() =~= before.insert(i as int, owned));
            if i < before.len() {
                assert(text_bytes(before[i as int]) != k) by {
                    if text_bytes(before[i as int]) == k {
                        encode_utf8_decode_utf8(before[i as int]@);
                    }
                }
            }
            assert forall|a: int, b: int| 0 <= a < b < self.view().len() implies bytes_precede(
                text_bytes(self.view()[a]),
                text_bytes(self.view()[b]),
            ) by {
                if b == i {
                    assert(self.view()[a] == before[a]);
                } else if a == i {
                    assert(self.view()[b] == before[b - 1]);
                    if text_bytes(before[b - 1]) == k {
                        encode_utf8_decode_utf8(before[b - 1]@);
                    }
                } else if a < i && b > i {
                    assert(self.view()[a] == before[a]);
                    assert(self.view()[b] == before[b - 1]);
                    if text_bytes(before[b - 1]) == k {
                        encode_utf8_decode_utf8(before[b - 1]@);
                    } else {
                        lemma_precede_transitive(text_bytes(before[a]), k, text_bytes(before[b - 1]));
                    }
                } else if a < i {
                    assert(self.view()[a] == before[a]);
                    assert(self.view()[b] == before[b]);
                } else {
                    assert(self.view()[a] == before[a - 1]);
                    assert(self.view()[b] == before[b - 1]);
                }
            }
            assert forall|u: Seq<char>| members(self.view()).contains(u) == members(
                before,
            ).insert(uri@).contains(u) by {
                if members(before).contains(u) {
                    let j = choose|j: int| 0 <= j < before.len() && before[j]@ == u;
                    let j2 = if j < i { j } else { j + 1 };
                    assert(self.view()[j2] == before[j]);
                }
                if members(self.view()).contains(u) {
                    let j = choose|j: int| 0 <= j < self.view().len() && self.view()[j]@ == u;
                    if j < i {
                        assert(self.view()[j] == before[j]);
                    } else if j > i {
                        assert(self.view()[j] == before[j - 1]);
                    }
                }
                if u == uri@ {
                    assert(self.view()[i as int]@ == u);
                }
            }
            assert(members(self.view()) =~= members(before).insert(uri@));
        }
    }

    /// Removes `uri`.
    pub fn remove(&mut self, uri: &str)
        requires
            old(self).wf(),
        ensures
            final(self).wf(),
            final(self).set() == old(self).set().remove(uri@),
    {
        let ghost before = self.view();
        let (i, found) = self.locate(uri);
        if !found {
            proof {
                assert(members(before).remove(uri@) =~= members(before));
            }
            return;
        }
        self.uris.remove(i);
        proof {
            assert(self.view() =~= before.remove(i as int));
            assert forall|a: int, b: int| 0 <= a < b < self.view().len() implies bytes_precede(
                text_bytes(self.view()[a]),
                text_bytes(self.view()[b]),
            ) by {
                if a >= i {
                    assert(self.view()[a] == before[a + 1]);
                    assert(self.view()[b] == before[b + 1]);
                } else if b >= i {
                    assert(self.view()[a] == before[a]);
                    assert(self.view()[b] == before[b + 1]);
                } else {
                    assert(self.view()[a] == before[a]);
                    assert(self.view()[b] == before[b]);
                }
            }
            assert forall|u: Seq<char>| members(self.view()).contains(u) == members(
                before,
            ).remove(uri@).contains(u) by {
                if members(before).contains(u) && u != uri@ {
                    let j = choose|j: int| 0 <= j < before.len() && before[j]@ == u;
                    assert(j != i);
                    let j2 = if j < i { j } else { j - 1 };
                    assert(self.view()[j2] == before[j]);
                }
                if members(self.view()).contains(u) {
                    let j = choose|j: int| 0 <= j < self.view().len() && self.view()[j]@ == u;
                    let j2 = if j < i { j } else { j + 1 };
                    assert(self.view()[j] == before[j2]);
                    assert(j2 != i);
                }
            }
            assert(members(self.view()) =~= members(before).remove(uri@));
        }
    }
}

/// The strings in strictly increasing byte order, each text once: what sorting
/// them and dropping repeats gives.
pub fn sorted_unique_strings(items: Vec<String>) -> (res: Vec<String>)
    ensures
        strings_sorted(res@),
        members(res@) == members(items@),
{
    let mut set = UriSet::new();
    let mut i: usize = 0;
    while i < items.len()
        invariant
            i <= items@.len(),
            set.wf(),
            set.set() == members(items@.subrange(0, i as int)),
        decreases items@.len() - i,
    {
        set.insert(items[i].as_str());
        proof {
            assert(members(items@.subrange(0, i + 1)) =~= members(items@.subrange(0, i as int)).insert(
                items@[i as int]@,
            )) by {
                let a = items@.subrange(0, i + 1);
                let b = items@.subrange(0, i as int);
                assert forall|u: Seq<char>| members(a).contains(u) implies members(b).insert(
                    items@[i as int]@,
                ).contains(u) by {
                    let k = choose|k: int| 0 <= k < a.len() && a[k]@ == u;
                    if k < i {
                        assert(b[k] == a[k]);
                    }
                }
                assert forall|u: Seq<char>| members(b).insert(items@[i as int]@).contains(u) implies members(
                    a,
                ).contains(u) by {
                    if u == items@[i as int]@ {
                        assert(a[i as int] == items@[i as int]);
                    } else {
                        let k = choose|k: int| 0 <= k < b.len() && b[k]@ == u;
                        assert(a[k] == b[k]);
                    }
                }
            }
        }
        i = i + 1;
    }
    assert(items@.subrange(0, items@.len() as int) =~= items@);
    set.into_vec()
}

} // verus!
