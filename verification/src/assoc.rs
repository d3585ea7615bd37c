//! Association lists keyed by identifier names, read as maps.

use vstd::prelude::*;

verus! {

/// The map denoted by an association list; later entries take precedence.
pub open spec fn assoc_map<W>(s: Seq<(Seq<char>, W)>) -> Map<Seq<char>, W>
    decreases s.len(),
{
    if s.len() == 0 {
        Map::empty()
    } else {
        assoc_map(s.drop_last()).insert(s.last().0, s.last().1)
    }
}

/// No name occurs twice.
pub open spec fn keys_unique<W>(s: Seq<(Seq<char>, W)>) -> bool {
    forall|i: int, j: int| 0 <= i < j < s.len() ==> s[i].0 != s[j].0
}

/// The names of an association list, in order.
pub open spec fn assoc_keys<W>(s: Seq<(Seq<char>, W)>) -> Seq<Seq<char>> {
    Seq::new(s.len(), |i: int| s[i].0)
}

pub proof fn lemma_assoc_dom<W>(s: Seq<(Seq<char>, W)>)
    ensures
        assoc_map(s).dom().finite(),
        forall|k: Seq<char>| #[trigger]
            assoc_map(s).contains_key(k) <==> exists|i: int| 0 <= i < s.len() && s[i].0 == k,
    decreases s.len(),
{
    if s.len() > 0 {
        lemma_assoc_dom(s.drop_last());
        assert forall|k: Seq<char>| #[trigger]
            assoc_map(s).contains_key(k) implies exists|i: int| 0 <= i < s.len() && s[i].0 == k by {
            if k != s.last().0 {
                let i = choose|i: int| 0 <= i < s.drop_last().len() && s.drop_last()[i].0 == k;
                assert(s[i].0 == k);
            } else {
                assert(s[s.len() - 1].0 == k);
            }
        }
        assert forall|k: Seq<char>|
            (exists|i: int| 0 <= i < s.len() && s[i].0 == k) implies #[trigger] assoc_map(s).contains_key(k) by {
            let i = choose|i: int| 0 <= i < s.len() && s[i].0 == k;
            if i < s.len() - 1 {
                assert(s.drop_last()[i].0 == k);
            }
        }
    }
}

pub proof fn lemma_assoc_index<W>(s: Seq<(Seq<char>, W)>, i: int)
    requires
        keys_unique(s),
        0 <= i < s.len(),
    ensures
        assoc_map(s).contains_key(s[i].0),
        assoc_map(s)[s[i].0] == s[i].1,
    decreases s.len(),
{
    if i < s.len() - 1 {
        lemma_assoc_index(s.drop_last(), i);
        assert(s.drop_last()[i] == s[i]);
    }
}

pub proof fn lemma_assoc_update<W>(s: Seq<(Seq<char>, W)>, i: int, w: W)
    requires
        keys_unique(s),
        0 <= i < s.len(),
    ensures
        assoc_map(s.update(i, (s[i].0, w))) == assoc_map(s).insert(s[i].0, w),
        keys_unique(s.update(i, (s[i].0, w))),
    decreases s.len(),
{
    let t = s.update(i, (s[i].0, w));
    if i == s.len() - 1 {
        assert(t.drop_last() =~= s.drop_last());
        lemma_assoc_dom(s.drop_last());
        assert(assoc_map(t) =~= assoc_map(s).insert(s[i].0, w));
    } else {
        lemma_assoc_update(s.drop_last(), i, w);
        assert(t.drop_last() =~= s.drop_last().update(i, (s[i].0, w)));
        assert(assoc_map(t) =~= assoc_map(s).insert(s[i].0, w));
    }
}

pub proof fn lemma_assoc_remove<W>(s: Seq<(Seq<char>, W)>, i: int)
    requires
        keys_unique(s),
        0 <= i < s.len(),
    ensures
        assoc_map(s.remove(i)) == assoc_map(s).remove(s[i].0),
        keys_unique(s.remove(i)),
    decreases s.len(),
{
    let t = s.remove(i);
    assert forall|a: int, b: int| 0 <= a < b < t.len() implies t[a].0 != t[b].0 by {
        let a1 = if a < i { a } else { a + 1 };
        let b1 = if b < i { b } else { b + 1 };
        assert(t[a] == s[a1] && t[b] == s[b1]);
    }
    if i == s.len() - 1 {
        assert(t =~= s.drop_last());
        lemma_assoc_dom(s.drop_last());
        assert forall|j: int| 0 <= j < s.drop_last().len() implies s.drop_last()[j].0 != s[i].0 by {
            assert(s.drop_last()[j] == s[j]);
        }
        assert(assoc_map(t) =~= assoc_map(s).remove(s[i].0));
    } else {
        lemma_assoc_remove(s.drop_last(), i);
        assert(t.drop_last() =~= s.drop_last().remove(i));
        assert(t.last() == s.last());
        assert(s.last().0 != s[i].0);
        assert(assoc_map(t) =~= assoc_map(s).remove(s[i].0));
    }
}

pub proof fn lemma_assoc_push<W>(s: Seq<(Seq<char>, W)>, k: Seq<char>, w: W)
    requires
        keys_unique(s),
        !assoc_map(s).contains_key(k),
    ensures
        assoc_map(s.push((k, w))) == assoc_map(s).insert(k, w),
        keys_unique(s.push((k, w))),
{
    lemma_assoc_dom(s);
    assert(s.push((k, w)).drop_last() =~= s);
    assert forall|i: int, j: int| 0 <= i < j < s.push((k, w)).len() implies s.push((k, w))[i].0 != s.push((k, w))[j].0 by {
        if j == s.len() {
            assert(s[i].0 != k);
        }
    }
}

} // verus!

verus! {

/// An association list with each value transformed.
pub open spec fn assoc_map_values<W, U>(s: Seq<(Seq<char>, W)>, f: spec_fn(W) -> U) -> Seq<(Seq<char>, U)> {
    Seq::new(s.len(), |i: int| (s[i].0, f(s[i].1)))
}

/// Transforming the values of an association list transforms its map.
pub proof fn lemma_assoc_map_values<W, U>(s: Seq<(Seq<char>, W)>, f: spec_fn(W) -> U)
    ensures
        assoc_map(assoc_map_values(s, f)) == assoc_map(s).map_values(f),
        keys_unique(s) ==> keys_unique(assoc_map_values(s, f)),
    decreases s.len(),
{
    let t = assoc_map_values(s, f);
    if s.len() > 0 {
        lemma_assoc_map_values(s.drop_last(), f);
        assert(t.drop_last() =~= assoc_map_values(s.drop_last(), f));
    }
    assert(assoc_map(t) =~= assoc_map(s).map_values(f));
}

} // verus!
