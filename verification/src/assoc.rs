//! Association lists over byte-string keys, viewed as maps.
//!
//! Both the redirection map and the in-memory filesystem model store
//! their entries as ordered pairs; this module gives that storage its
//! `Map` meaning (later pairs win) and the lemmas that connect linear
//! scans to map lookups.

use vstd::prelude::*;

verus! {

/// The map described by a pair sequence, later entries winning.
pub open spec fn map_of<T: View>(s: Seq<(Vec<u8>, T)>) -> Map<Seq<u8>, <T as View>::V>
    decreases s.len(),
{
    if s.len() == 0 {
        Map::empty()
    } else {
        map_of(s.drop_last()).insert(s.last().0@, s.last().1@)
    }
}

/// A key is in the map exactly when some pair carries it.
pub proof fn lemma_map_of_contains<T: View>(s: Seq<(Vec<u8>, T)>, k: Seq<u8>)
    ensures
        map_of(s).contains_key(k) <==> exists|i: int| 0 <= i < s.len() && s[i].0@ == k,
    decreases s.len(),
{
    if s.len() > 0 {
        lemma_map_of_contains(s.drop_last(), k);
        if s.last().0@ == k {
            assert(s[s.len() - 1].0@ == k);
        } else {
            if map_of(s).contains_key(k) {
                let i = choose|i: int| 0 <= i < s.drop_last().len() && s.drop_last()[i].0@ == k;
                assert(s[i].0@ == k);
            }
            if exists|i: int| 0 <= i < s.len() && s[i].0@ == k {
                let i = choose|i: int| 0 <= i < s.len() && s[i].0@ == k;
                assert(s.drop_last()[i].0@ == k);
            }
        }
    }
}

/// The value of the last pair carrying a key is the map's value for
/// that key.
pub proof fn lemma_map_of_value<T: View>(s: Seq<(Vec<u8>, T)>, i: int)
    requires
        0 <= i < s.len(),
        forall|j: int| i < j < s.len() ==> s[j].0@ != s[i].0@,
    ensures
        map_of(s).contains_key(s[i].0@),
        map_of(s)[s[i].0@] == s[i].1@,
    decreases s.len(),
{
    if i == s.len() - 1 {
    } else {
        assert(s.drop_last()[i] == s[i]);
        lemma_map_of_value(s.drop_last(), i);
        assert(s.last().0@ != s[i].0@);
    }
}

/// With unique keys, a value is in the map exactly when some pair
/// carries it.
pub proof fn lemma_map_of_contains_value<T: View>(s: Seq<(Vec<u8>, T)>, v: <T as View>::V)
    requires
        forall|i: int, j: int| 0 <= i < j < s.len() ==> s[i].0@ != s[j].0@,
    ensures
        map_of(s).contains_value(v) <==> exists|i: int| 0 <= i < s.len() && s[i].1@ == v,
{
    if map_of(s).contains_value(v) {
        let k = choose|k: Seq<u8>| map_of(s).dom().contains(k) && map_of(s)[k] == v;
        lemma_map_of_contains(s, k);
        let i = choose|i: int| 0 <= i < s.len() && s[i].0@ == k;
        lemma_map_of_value(s, i);
        assert(s[i].1@ == v);
    }
    if exists|i: int| 0 <= i < s.len() && s[i].1@ == v {
        let i = choose|i: int| 0 <= i < s.len() && s[i].1@ == v;
        lemma_map_of_value(s, i);
        assert(map_of(s).dom().contains(s[i].0@) && map_of(s)[s[i].0@] == v);
    }
}

/// The map of a pair sequence is finite, with at most — and, under
/// unique keys, exactly — as many keys as pairs.
pub proof fn lemma_map_of_len<T: View>(s: Seq<(Vec<u8>, T)>)
    ensures
        map_of(s).dom().finite(),
        map_of(s).dom().len() <= s.len(),
        (forall|i: int, j: int| 0 <= i < j < s.len() ==> s[i].0@ != s[j].0@) ==> map_of(
            s,
        ).dom().len() == s.len(),
    decreases s.len(),
{
    broadcast use vstd::set::axiom_set_empty_len;

    if s.len() == 0 {
        assert(map_of(s).dom() =~= Set::<Seq<u8>>::empty());
    } else {
        lemma_map_of_len(s.drop_last());
        assert(map_of(s).dom() =~= map_of(s.drop_last()).dom().insert(s.last().0@));
        vstd::set::axiom_set_insert_len(map_of(s.drop_last()).dom(), s.last().0@);
        if forall|i: int, j: int| 0 <= i < j < s.len() ==> s[i].0@ != s[j].0@ {
            assert(forall|i: int, j: int|
                0 <= i < j < s.drop_last().len() ==> s.drop_last()[i].0@ != s.drop_last()[j].0@)
                by {
                assert(forall|i: int|
                    0 <= i < s.drop_last().len() ==> s.drop_last()[i] == s[i]);
            }
            lemma_map_of_contains(s.drop_last(), s.last().0@);
            assert(!map_of(s.drop_last()).contains_key(s.last().0@)) by {
                assert(forall|i: int|
                    0 <= i < s.drop_last().len() ==> s.drop_last()[i].0@ != s[s.len() - 1].0@);
            }
        }
    }
}

/// Replacing the pair at a key's unique position updates the map at
/// that key alone.
pub proof fn lemma_map_of_update<T: View>(s: Seq<(Vec<u8>, T)>, i: int, p: (Vec<u8>, T))
    requires
        0 <= i < s.len(),
        p.0@ == s[i].0@,
        forall|j: int, l: int| 0 <= j < l < s.len() ==> s[j].0@ != s[l].0@,
    ensures
        map_of(s.update(i, p)) == map_of(s).insert(p.0@, p.1@),
    decreases s.len(),
{
    let s2 = s.update(i, p);
    if i == s.len() - 1 {
        assert(s2.drop_last() =~= s.drop_last());
        assert(map_of(s2) =~= map_of(s).insert(p.0@, p.1@));
    } else {
        assert(s2.drop_last() =~= s.drop_last().update(i, p));
        assert(s.drop_last()[i] == s[i]);
        lemma_map_of_update(s.drop_last(), i, p);
        assert(s2.last() == s.last());
        assert(s.last().0@ != p.0@);
        assert(map_of(s2) =~= map_of(s).insert(p.0@, p.1@));
    }
}

} // verus!
