//! Address-keyed record tables: an association list whose mathematical image
//! is a map from address views to record views.

use vstd::prelude::*;

use crate::addr::{address_eq, Address};

verus! {

/// No two entries share an address.
pub open spec fn keys_distinct<T>(s: Seq<(Address, T)>) -> bool {
    forall|i: int, j: int| 0 <= i < j < s.len() ==> s[i].0@ != s[j].0@
}

/// The map a table stands for: each stored address view to its record view.
pub open spec fn assoc_map<T: View>(s: Seq<(Address, T)>) -> Map<Seq<u8>, T::V> {
    Map::new(
        |k: Seq<u8>| exists|i: int| 0 <= i < s.len() && (#[trigger] s[i].0@) == k,
        |k: Seq<u8>|
            s[choose|i: int| 0 <= i < s.len() && (#[trigger] s[i].0@) == k].1@,
    )
}

/// An entry at index `i` is what the map holds at its key.
pub proof fn lemma_assoc_at<T: View>(s: Seq<(Address, T)>, i: int)
    requires
        keys_distinct(s),
        0 <= i < s.len(),
    ensures
        assoc_map(s).dom().contains(s[i].0@),
        assoc_map(s)[s[i].0@] == s[i].1@,
{
    let k = s[i].0@;
    assert(assoc_map(s).dom().contains(k));
    let j = choose|j: int| 0 <= j < s.len() && (#[trigger] s[j].0@) == k;
    if i < j {
        assert(s[i].0@ != s[j].0@);
    } else if j < i {
        assert(s[j].0@ != s[i].0@);
    }
    assert(j == i);
}

/// A key no entry holds is outside the map's domain.
pub proof fn lemma_assoc_absent<T: View>(s: Seq<(Address, T)>, k: Seq<u8>)
    requires
        forall|i: int| 0 <= i < s.len() ==> (#[trigger] s[i].0@) != k,
    ensures
        !assoc_map(s).dom().contains(k),
{
}

/// Appending a fresh key inserts it into the map.
pub proof fn lemma_assoc_push<T: View>(s: Seq<(Address, T)>, a: Address, v: T)
    requires
        keys_distinct(s),
        forall|i: int| 0 <= i < s.len() ==> (#[trigger] s[i].0@) != a@,
    ensures
        keys_distinct(s.push((a, v))),
        assoc_map(s.push((a, v))) =~= assoc_map(s).insert(a@, v@),
{
    let s2 = s.push((a, v));
    assert forall|i: int, j: int| 0 <= i < j < s2.len() implies s2[i].0@ != s2[j].0@ by {
        if j < s.len() {
            assert(s[i].0@ != s[j].0@);
        } else {
            assert(s[i].0@ != a@);
        }
    }
    assert forall|k: Seq<u8>| assoc_map(s2).dom().contains(k) implies assoc_map(s).insert(
        a@,
        v@,
    ).dom().contains(k) by {
        let i = choose|i: int| 0 <= i < s2.len() && (#[trigger] s2[i].0@) == k;
        if i < s.len() {
            assert(s[i].0@ == k);
        } else {
            assert(k == a@);
        }
    }
    assert forall|k: Seq<u8>| assoc_map(s).insert(a@, v@).dom().contains(k) implies assoc_map(
        s2,
    ).dom().contains(k) by {
        if k == a@ {
            assert(s2[s.len() as int].0@ == k);
        } else {
            let i = choose|i: int| 0 <= i < s.len() && (#[trigger] s[i].0@) == k;
            assert(s2[i].0@ == k);
        }
    }
    assert forall|k: Seq<u8>| #[trigger]
        assoc_map(s2).dom().contains(k) implies assoc_map(s2)[k] == assoc_map(s).insert(a@, v@)[k]
        by {
        if k == a@ {
            lemma_assoc_at(s2, s.len() as int);
        } else {
            let i = choose|i: int| 0 <= i < s2.len() && (#[trigger] s2[i].0@) == k;
            assert(i < s.len());
            assert(s2[i] == s[i]);
            lemma_assoc_at(s2, i);
            lemma_assoc_at(s, i);
        }
    }
}

/// Replacing the record at index `i`, key kept, updates the map at that key.
pub proof fn lemma_assoc_update<T: View>(s: Seq<(Address, T)>, i: int, v: T)
    requires
        keys_distinct(s),
        0 <= i < s.len(),
    ensures
        keys_distinct(s.update(i, (s[i].0, v))),
        assoc_map(s.update(i, (s[i].0, v))) =~= assoc_map(s).insert(s[i].0@, v@),
{
    let s2 = s.update(i, (s[i].0, v));
    assert(forall|j: int| 0 <= j < s.len() ==> s2[j].0 == s[j].0);
    assert forall|k: Seq<u8>| assoc_map(s2).dom().contains(k) implies assoc_map(s).insert(
        s[i].0@,
        v@,
    ).dom().contains(k) by {
        let j = choose|j: int| 0 <= j < s2.len() && (#[trigger] s2[j].0@) == k;
        assert(s[j].0@ == k);
    }
    assert forall|k: Seq<u8>| assoc_map(s).insert(s[i].0@, v@).dom().contains(k) implies assoc_map(
        s2,
    ).dom().contains(k) by {
        if k == s[i].0@ {
            assert(s2[i].0@ == k);
        } else {
            let j = choose|j: int| 0 <= j < s.len() && (#[trigger] s[j].0@) == k;
            assert(s2[j].0@ == k);
        }
    }
    assert forall|k: Seq<u8>| #[trigger]
        assoc_map(s2).dom().contains(k) implies assoc_map(s2)[k] == assoc_map(s).insert(
        s[i].0@,
        v@,
    )[k] by {
        if k == s[i].0@ {
            lemma_assoc_at(s2, i);
        } else {
            let j = choose|j: int| 0 <= j < s2.len() && (#[trigger] s2[j].0@) == k;
            assert(j != i);
            assert(s2[j] == s[j]);
            lemma_assoc_at(s2, j);
            lemma_assoc_at(s, j);
        }
    }
}

/// Linear scan for the entry holding a key.
pub fn assoc_find<T>(entries: &Vec<(Address, T)>, key: &Address) -> (r: Option<usize>)
    ensures
        (r matches Some(i) ==> i < entries@.len() && entries@[i as int].0@ == key@),
        (r is None ==> forall|i: int|
            0 <= i < entries@.len() ==> (#[trigger] entries@[i].0@) != key@),
{
    let n = entries.len();
    let mut i: usize = 0;
    while i < n
        invariant
            n == entries@.len(),
            i <= n,
            forall|j: int| 0 <= j < i ==> (#[trigger] entries@[j].0@) != key@,
        decreases n - i,
    {
        if address_eq(&entries[i].0, key) {
            return Some(i);
        }
        i += 1;
    }
    None
}

/// Replace the entry at index `i`.
pub fn assoc_set<T>(entries: &mut Vec<(Address, T)>, i: usize, v: (Address, T))
    requires
        i < old(entries)@.len(),
    ensures
        final(entries)@ == old(entries)@.update(i as int, v),
{
    let _removed = entries.remove(i);
    entries.insert(i, v);
    proof {
        assert(entries@ =~= old(entries)@.update(i as int, v));
    }
}

} // verus!
