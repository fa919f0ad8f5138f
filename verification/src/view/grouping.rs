//! Grouping by a text, the groups in the order of the dictionary.
use vstd::prelude::*;
use vstd::string::StringExecFns;
use crate::data::text::{
    lemma_precedes_total, lemma_precedes_transitive, precedes, text_precedes,
};

verus! {

/// Strings behind references, as texts.
pub open spec fn str_views(v: Seq<&str>) -> Seq<Seq<char>> {
    Seq::new(v.len(), |i: int| v[i]@)
}

/// The places at which a key stands among some keys, in order.
pub open spec fn places_of(keys: Seq<Seq<char>>, key: Seq<char>) -> Seq<usize>
    decreases keys.len(),
{
    if keys.len() == 0 {
        Seq::empty()
    } else {
        let before = places_of(keys.drop_last(), key);
        if keys.last() == key {
            before.push((keys.len() - 1) as usize)
        } else {
            before
        }
    }
}

/// Where a key goes into keys that are in the order of the dictionary,
/// looking from `from` on: before the first that does not come before it.
pub open spec fn rank_from(sorted: Seq<Seq<char>>, key: Seq<char>, from: int) -> int
    decreases sorted.len() - from,
{
    if from < 0 || from >= sorted.len() {
        sorted.len() as int
    } else if precedes(sorted[from], key) {
        rank_from(sorted, key, from + 1)
    } else {
        from
    }
}

/// The distinct keys among some keys, in the order of the dictionary.
pub open spec fn distinct_sorted(keys: Seq<Seq<char>>) -> Seq<Seq<char>>
    decreases keys.len(),
{
    if keys.len() == 0 {
        Seq::empty()
    } else {
        let before = distinct_sorted(keys.drop_last());
        if before.contains(keys.last()) {
            before
        } else {
            before.insert(rank_from(before, keys.last(), 0), keys.last())
        }
    }
}

/// The keys of some groups.
pub open spec fn keys_of(groups: Seq<(String, Vec<usize>)>) -> Seq<Seq<char>> {
    Seq::new(groups.len(), |g: int| groups[g].0@)
}

/// Whether some groups are the groups of some keys: one group for each
/// distinct key, the groups in the order of their keys, and in each group
/// the places at which its key stands.
pub open spec fn is_grouping(groups: Seq<(String, Vec<usize>)>, keys: Seq<Seq<char>>) -> bool {
    &&& keys_of(groups) == distinct_sorted(keys)
    &&& forall|a: int, b: int|
        0 <= a < b < groups.len() ==> precedes((#[trigger] groups[a]).0@, (#[trigger] groups[b]).0@)
    &&& forall|g: int|
        0 <= g < groups.len() ==> (#[trigger] groups[g]).1@ == places_of(keys, groups[g].0@)
            && groups[g].1@.len() > 0
    &&& forall|i: int| 0 <= i < keys.len() ==> has_group(groups, #[trigger] keys[i])
}

/// Whether one of some groups has the given key.
pub open spec fn has_group(groups: Seq<(String, Vec<usize>)>, key: Seq<char>) -> bool {
    exists|g: int| 0 <= g < groups.len() && (#[trigger] groups[g]).0@ == key
}

/// A key that stands nowhere has no places.
pub proof fn lemma_places_of_absent(keys: Seq<Seq<char>>, key: Seq<char>)
    requires
        forall|i: int| 0 <= i < keys.len() ==> #[trigger] keys[i] != key,
    ensures
        places_of(keys, key).len() == 0,
    decreases keys.len(),
{
    if keys.len() > 0 {
        assert forall|i: int| 0 <= i < keys.drop_last().len() implies #[trigger] keys.drop_last()[i]
            != key by {
            assert(keys.drop_last()[i] == keys[i]);
        }
        lemma_places_of_absent(keys.drop_last(), key);
        assert(keys.last() == keys[keys.len() - 1]);
    }
}

/// The places of a key are places of the keys, and the key stands at each of them.
pub proof fn lemma_places_of_within(keys: Seq<Seq<char>>, key: Seq<char>)
    requires
        keys.len() <= usize::MAX,
    ensures
        forall|j: int|
            0 <= j < places_of(keys, key).len() ==> (#[trigger] places_of(keys, key)[j]) < keys.len()
                && keys[places_of(keys, key)[j] as int] == key,
    decreases keys.len(),
{
    if keys.len() > 0 {
        lemma_places_of_within(keys.drop_last(), key);
        let before = places_of(keys.drop_last(), key);
        assert forall|j: int| 0 <= j < places_of(keys, key).len() implies (#[trigger] places_of(
            keys,
            key,
        )[j]) < keys.len() && keys[places_of(keys, key)[j] as int] == key by {
            if j < before.len() {
                assert(places_of(keys, key)[j] == before[j]);
                assert(keys.drop_last()[before[j] as int] == keys[before[j] as int]);
            } else {
                assert(keys.last() == key);
                assert(places_of(keys, key)[j] == (keys.len() - 1) as usize);
            }
        }
    }
}

/// The groups of some keys: for each distinct key the places at which it
/// stands, the keys in the order of the dictionary.
pub fn group_by_text(keys: &Vec<&str>) -> (r: Vec<(String, Vec<usize>)>)
    ensures
        is_grouping(r@, str_views(keys@)),
{
    let ghost all = str_views(keys@);
    let mut groups: Vec<(String, Vec<usize>)> = Vec::new();
    let mut i: usize = 0;
    assert(all.take(0) =~= Seq::<Seq<char>>::empty());
    assert(keys_of(groups@) =~= distinct_sorted(all.take(0)));
    while i < keys.len()
        invariant
            i <= keys.len(),
            all == str_views(keys@),
            is_grouping(groups@, all.take(i as int)),
        decreases keys.len() - i,
    {
        let key = keys[i];
        let ghost k = key@;
        let ghost before = groups@;
        let ghost seen = all.take(i as int);
        let ghost now = all.take(i + 1);
        proof {
            assert(now.drop_last() =~= seen);
            assert(now.last() == k);
            assert forall|j: int| 0 <= j < seen.len() implies #[trigger] now[j] == seen[j] by {}
        }
        let mut p: usize = 0;
        while p < groups.len() && text_precedes(groups[p].0.as_str(), key)
            invariant
                p <= groups.len(),
                groups@ == before,
                k == key@,
                forall|a: int| 0 <= a < p ==> precedes((#[trigger] before[a]).0@, k),
                rank_from(keys_of(before), k, 0) == rank_from(keys_of(before), k, p as int),
            decreases groups.len() - p,
        {
            assert(keys_of(before)[p as int] == before[p as int].0@);
            p += 1;
        }
        proof {
            if p < groups.len() {
                assert(keys_of(before)[p as int] == before[p as int].0@);
            }
            assert(rank_from(keys_of(before), k, 0) == p);
        }
        // the group at `p` does not come before the key: it has the key unless the key
        // comes before it
        let found = p < groups.len() && !text_precedes(key, groups[p].0.as_str());
        proof {
            if p < groups.len() {
                lemma_precedes_total(before[p as int].0@, k);
            }
            // the keys of the groups differ from one another, and so each from `k` but one
            assert forall|g: int| 0 <= g < before.len() && g != p implies (#[trigger] before[g]).0@
                != k by {
                if g < p {
                    lemma_precedes_total(before[g].0@, k);
                } else {
                    lemma_precedes_total(before[p as int].0@, k);
                    lemma_precedes_total(before[g].0@, k);
                    if before[g].0@ == k {
                        assert(precedes(before[p as int].0@, before[g].0@));
                    }
                }
            }
        }
        if found {
            let ghost members = groups@[p as int].1@;
            let group = &mut groups[p];
            group.1.push(i);
            proof {
                assert(keys_of(before)[p as int] == k);
                assert(keys_of(before).contains(k));
                assert(keys_of(groups@) =~= keys_of(before));
                assert(groups@[p as int].0 == before[p as int].0);
                assert(groups@[p as int].1@ == members.push(i));
                assert forall|g: int| 0 <= g < groups@.len() implies (#[trigger] groups@[g]).1@
                    == places_of(now, groups@[g].0@) && groups@[g].1@.len() > 0 by {
                    if g != p {
                        assert(groups@[g] == before[g]);
                        assert(before[g].0@ != k);
                    }
                }
                assert forall|a: int, b: int| 0 <= a < b < groups@.len() implies precedes(
                    (#[trigger] groups@[a]).0@,
                    (#[trigger] groups@[b]).0@,
                ) by {
                    assert(groups@[a].0 == before[a].0);
                    assert(groups@[b].0 == before[b].0);
                }
                assert forall|j: int| 0 <= j < now.len() implies has_group(
                    groups@,
                    #[trigger] now[j],
                ) by {
                    if j < seen.len() {
                        assert(has_group(before, seen[j]));
                        let g = choose|g: int|
                            0 <= g < before.len() && (#[trigger] before[g]).0@ == seen[j];
                        assert(groups@[g].0 == before[g].0);
                    } else {
                        assert(groups@[p as int].0@ == now[j]);
                    }
                }
            }
        } else {
            let mut members: Vec<usize> = Vec::new();
            members.push(i);
            groups.insert(p, (String::from_str(key), members));
            proof {
                assert forall|g: int| 0 <= g < before.len() implies (#[trigger] before[g]).0@
                    != k by {
                    if g == p {
                        assert(before[p as int].0@ != k);
                    }
                }
                if keys_of(before).contains(k) {
                    let g = choose|g: int| 0 <= g < keys_of(before).len() && keys_of(before)[g] == k;
                    assert(before[g].0@ == k);
                }
                assert(keys_of(groups@) =~= keys_of(before).insert(p as int, k));
                assert forall|j: int| 0 <= j < seen.len() implies #[trigger] seen[j] != k by {
                    assert(has_group(before, seen[j]));
                    let g = choose|g: int|
                        0 <= g < before.len() && (#[trigger] before[g]).0@ == seen[j];
                    assert(before[g].0@ != k);
                }
                lemma_places_of_absent(seen, k);
                assert(members@ =~= places_of(now, k));
                assert forall|g: int| 0 <= g < groups@.len() implies (#[trigger] groups@[g]).1@
                    == places_of(now, groups@[g].0@) && groups@[g].1@.len() > 0 by {
                    if g < p {
                        assert(groups@[g] == before[g]);
                    } else if g > p {
                        assert(groups@[g] == before[g - 1]);
                    }
                }
                assert forall|a: int, b: int| 0 <= a < b < groups@.len() implies precedes(
                    (#[trigger] groups@[a]).0@,
                    (#[trigger] groups@[b]).0@,
                ) by {
                    let key_of = |g: int|
                        if g < p {
                            before[g].0@
                        } else if g == p {
                            k
                        } else {
                            before[g - 1].0@
                        };
                    assert(groups@[a].0@ == key_of(a));
                    assert(groups@[b].0@ == key_of(b));
                    if b == p {
                    } else if a == p {
                        // `k` comes before the group that stood at its place, and so
                        // before all behind that
                        lemma_precedes_total(before[p as int].0@, k);
                        if b - 1 > p {
                            assert(precedes(before[p as int].0@, before[b - 1].0@));
                            lemma_precedes_transitive(k, before[p as int].0@, before[b - 1].0@);
                        }
                    } else if a < p && b > p {
                        assert(precedes(before[a].0@, before[b - 1].0@));
                    } else if a < p {
                        assert(precedes(before[a].0@, before[b].0@));
                    } else {
                        assert(precedes(before[a - 1].0@, before[b - 1].0@));
                    }
                }
                assert forall|j: int| 0 <= j < now.len() implies has_group(
                    groups@,
                    #[trigger] now[j],
                ) by {
                    if j < seen.len() {
                        assert(has_group(before, seen[j]));
                        let g = choose|g: int|
                            0 <= g < before.len() && (#[trigger] before[g]).0@ == seen[j];
                        if g < p {
                            assert(groups@[g] == before[g]);
                        } else {
                            assert(groups@[g + 1] == before[g]);
                        }
                    } else {
                        assert(groups@[p as int].0@ == now[j]);
                    }
                }
            }
        }
        i += 1;
    }
    assert(all.take(i as int) =~= all);
    groups
}

} // verus!
