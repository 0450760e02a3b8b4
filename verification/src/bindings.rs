//! Logs of named entries: the one structure behind the renamer's counts and
//! scope, the checker's substitutions and the tables of host functions. A
//! log is read from its end: the last entry of a name is the one that
//! counts.

use vstd::prelude::*;

verus! {

/// The model of a log: each name by its view.
pub open spec fn entries_of<V>(v: Seq<(String, V)>) -> Seq<(Seq<char>, V)> {
    Seq::new(v.len(), |i: int| (v[i].0@, v[i].1))
}

/// What the last entry for `k` holds.
pub open spec fn find_last<V>(s: Seq<(Seq<char>, V)>, k: Seq<char>) -> Option<V>
    decreases s.len(),
{
    if s.len() == 0 {
        None
    } else if s.last().0 == k {
        Some(s.last().1)
    } else {
        find_last(s.drop_last(), k)
    }
}

/// A log read as a map: the last entry for a name counts.
pub open spec fn map_of<V>(log: Seq<(Seq<char>, V)>) -> Map<Seq<char>, V> {
    Map::new(|k: Seq<char>| find_last(log, k) is Some, |k: Seq<char>| find_last(log, k)->0)
}

/// A log that grew by one entry reads as the map with that entry put in.
pub proof fn lemma_map_of_push<V>(log: Seq<(Seq<char>, V)>, p: Seq<char>, k: V)
    ensures
        map_of(log.push((p, k))) == map_of(log).insert(p, k),
{
    let grown = log.push((p, k));
    assert(grown.drop_last() =~= log);
    assert forall|q: Seq<char>| find_last(grown, q) == (if q == p {
        Some(k)
    } else {
        find_last(log, q)
    }) by {}
}

/// Entries for other names at the end of a log do not count.
pub proof fn lemma_find_last_take<V>(s: Seq<(Seq<char>, V)>, k: Seq<char>, i: int)
    requires
        0 <= i <= s.len(),
        forall|j: int| i <= j < s.len() ==> (#[trigger] s[j]).0 != k,
    ensures
        find_last(s, k) == find_last(s.take(i), k),
    decreases s.len() - i,
{
    if i < s.len() {
        assert(s.drop_last().take(i) =~= s.take(i));
        lemma_find_last_take(s.drop_last(), k, i);
    } else {
        assert(s.take(i) =~= s);
    }
}

/// The last entry for `k` in `v`.
pub fn lookup_ref<'a, V>(v: &'a Vec<(String, V)>, k: &String) -> (r: Option<&'a V>)
    ensures
        match r {
            Some(x) => find_last(entries_of(v@), k@) == Some(*x),
            None => find_last(entries_of(v@), k@) is None,
        },
{
    let mut i: usize = v.len();
    while i > 0
        invariant
            i <= v@.len(),
            forall|j: int| i <= j < v@.len() ==> (#[trigger] entries_of(v@)[j]).0 != k@,
        decreases i,
    {
        if v[i - 1].0.eq(k) {
            proof {
                let s = entries_of(v@);
                lemma_find_last_take(s, k@, i as int);
            }
            return Some(&v[i - 1].1);
        }
        i = i - 1;
    }
    proof {
        let s = entries_of(v@);
        lemma_find_last_take(s, k@, 0);
    }
    None
}

/// What the last entry for `k` in `v` holds.
pub fn lookup<V: Copy>(v: &Vec<(String, V)>, k: &String) -> (r: Option<V>)
    ensures
        r == find_last(entries_of(v@), k@),
{
    match lookup_ref(v, k) {
        Some(x) => Some(*x),
        None => None,
    }
}

/// The map `m` with the entries `entries[i..]` put in, one after the other:
/// of two entries with the same name the later one stays.
pub open spec fn insert_all<V>(m: Map<Seq<char>, V>, entries: Seq<(Seq<char>, V)>, i: int) -> Map<
    Seq<char>,
    V,
>
    decreases entries.len() - i,
{
    if i < 0 || i >= entries.len() {
        m
    } else {
        insert_all(m.insert(entries[i].0, entries[i].1), entries, i + 1)
    }
}

/// A log read as a map binds finitely many names.
pub proof fn lemma_map_of_finite<V>(log: Seq<(Seq<char>, V)>)
    ensures
        map_of(log).dom().finite(),
    decreases log.len(),
{
    if log.len() == 0 {
        assert(map_of(log).dom() =~= Set::<Seq<char>>::empty());
    } else {
        lemma_map_of_finite(log.drop_last());
        assert(map_of(log).dom() =~= map_of(log.drop_last()).dom().insert(log.last().0));
    }
}

/// A log with more entries behind it reads as the map with those entries
/// put in, one after the other.
pub proof fn lemma_map_of_concat<V>(log: Seq<(Seq<char>, V)>, more: Seq<(Seq<char>, V)>, i: int)
    requires
        0 <= i <= more.len(),
    ensures
        map_of(log + more) == insert_all(map_of(log + more.subrange(0, i)), more, i),
    decreases more.len() - i,
{
    if i < more.len() {
        lemma_map_of_concat(log, more, i + 1);
        assert((log + more.subrange(0, i)).push(more[i]) =~= log + more.subrange(0, i + 1));
        lemma_map_of_push(log + more.subrange(0, i), more[i].0, more[i].1);
    } else {
        assert(more.subrange(0, i) =~= more);
    }
}

} // verus!
