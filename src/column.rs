//! A column of the key-value store: entries in order of writing, read as a
//! map in which a later write to a key replaces an earlier one.
use vstd::prelude::*;
use crate::record::CandidateHash;

verus! {

/// A key of a column, compared by value.
pub trait ColumnKey: Sized + Copy {
    /// Whether two keys are equal.
    fn key_eq(&self, other: &Self) -> (r: bool)
        ensures
            r == (*self == *other),
    ;
}

impl ColumnKey for CandidateHash {
    fn key_eq(&self, other: &Self) -> (r: bool) {
        self.same(other)
    }
}

/// The key of an erasure chunk: its candidate and its index.
#[derive(Clone, Copy, Debug, PartialEq, Eq)]
pub struct ChunkKey {
    pub candidate_hash: CandidateHash,
    pub index: u32,
}

impl ColumnKey for ChunkKey {
    fn key_eq(&self, other: &Self) -> (r: bool) {
        self.candidate_hash.same(&other.candidate_hash) && self.index == other.index
    }
}

/// The map that a column's entries stand for.
pub open spec fn column_map<K, V>(s: Seq<(K, V)>) -> Map<K, V>
    decreases s.len(),
{
    if s.len() == 0 {
        Map::empty()
    } else {
        column_map(s.drop_last()).insert(s.last().0, s.last().1)
    }
}

/// A key is in the map exactly when some entry has it.
proof fn lemma_column_dom<K, V>(s: Seq<(K, V)>, k: K)
    ensures
        column_map(s).contains_key(k) <==> exists|j: int| 0 <= j < s.len() && (#[trigger] s[j]).0 == k,
    decreases s.len(),
{
    if s.len() > 0 {
        lemma_column_dom(s.drop_last(), k);
        if column_map(s.drop_last()).contains_key(k) {
            let j = choose|j: int| 0 <= j < s.drop_last().len() && (#[trigger] s.drop_last()[j]).0 == k;
            assert(s[j].0 == k);
        }
        if exists|j: int| 0 <= j < s.len() && (#[trigger] s[j]).0 == k {
            let j = choose|j: int| 0 <= j < s.len() && (#[trigger] s[j]).0 == k;
            if j < s.len() - 1 {
                assert(s.drop_last()[j].0 == k);
            }
        }
    }
}

/// Removing an entry with key `k` leaves the map without `k` as it was.
proof fn lemma_column_remove<K, V>(s: Seq<(K, V)>, i: int, k: K)
    requires
        0 <= i < s.len(),
        s[i].0 == k,
    ensures
        column_map(s.remove(i)).remove(k) == column_map(s).remove(k),
    decreases s.len(),
{
    if i == s.len() - 1 {
        assert(s.remove(i) =~= s.drop_last());
        assert(column_map(s.drop_last()).insert(k, s.last().1).remove(k) =~= column_map(s.drop_last()).remove(k));
    } else {
        let init = s.drop_last();
        lemma_column_remove(init, i, k);
        assert(s.remove(i) =~= init.remove(i).push(s.last()));
        assert(s.remove(i).drop_last() =~= init.remove(i));
        assert(s.remove(i).last() == s.last());
        let m = column_map(init.remove(i));
        assert(column_map(s.remove(i)) == m.insert(s.last().0, s.last().1));
        assert(column_map(s) == column_map(init).insert(s.last().0, s.last().1));
        let n = column_map(init);
        let (lk, lv) = s.last();
        if lk == k {
            assert(m.insert(lk, lv).remove(k) =~= m.remove(k));
            assert(n.insert(lk, lv).remove(k) =~= n.remove(k));
        } else {
            assert(m.insert(lk, lv).remove(k) =~= m.remove(k).insert(lk, lv));
            assert(n.insert(lk, lv).remove(k) =~= n.remove(k).insert(lk, lv));
        }
    }
}

/// The value of `k`, if the column holds one.
pub fn get<'a, K: ColumnKey, V>(s: &'a Vec<(K, V)>, k: &K) -> (r: Option<&'a V>)
    ensures
        match r {
            Some(v) => column_map(s@).contains_key(*k) && column_map(s@)[*k] == *v,
            None => !column_map(s@).contains_key(*k),
        },
{
    let mut i: usize = s.len();
    assert(s@.take(i as int) =~= s@);
    while i > 0
        invariant
            i <= s.len(),
            forall|j: int| i <= j < s.len() ==> (#[trigger] s@[j]).0 != *k,
            column_map(s@).contains_key(*k) == column_map(s@.take(i as int)).contains_key(*k),
            column_map(s@).contains_key(*k) ==> column_map(s@)[*k] == column_map(s@.take(i as int))[*k],
        decreases i,
    {
        assert(s@.take(i as int).drop_last() =~= s@.take(i - 1));
        assert(s@.take(i as int).last() == s@[i - 1]);
        if s[i - 1].0.key_eq(k) {
            return Some(&s[i - 1].1);
        }
        i = i - 1;
    }
    None
}

/// Writes `v` under `k`, in place of any value that `k` had.
pub fn put<K: ColumnKey, V>(s: &mut Vec<(K, V)>, k: K, v: V)
    ensures
        column_map(final(s)@) == column_map(old(s)@).insert(k, v),
{
    let ghost before = old(s)@;
    let mut i: usize = 0;
    while i < s.len()
        invariant
            i <= s.len(),
            forall|j: int| 0 <= j < i ==> (#[trigger] s@[j]).0 != k,
            column_map(s@).remove(k) == column_map(before).remove(k),
        decreases s.len() - i,
    {
        if s[i].0.key_eq(&k) {
            proof {
                lemma_column_remove(s@, i as int, k);
            }
            s.remove(i);
        } else {
            i = i + 1;
        }
    }
    proof {
        lemma_column_dom(s@, k);
    }
    assert(column_map(s@).remove(k) =~= column_map(s@));
    let ghost mid = s@;
    s.push((k, v));
    assert(s@.drop_last() =~= mid);
    assert(column_map(s@) == column_map(mid).insert(k, v));
    assert(column_map(s@) =~= column_map(before).insert(k, v));
}

/// Whether `k` is among `keys`.
fn contains_key<K: ColumnKey>(keys: &Vec<K>, k: &K) -> (r: bool)
    ensures
        r == keys@.contains(*k),
{
    let mut i: usize = 0;
    while i < keys.len()
        invariant
            i <= keys.len(),
            forall|j: int| 0 <= j < i ==> keys@[j] != *k,
        decreases keys.len() - i,
    {
        if keys[i].key_eq(k) {
            return true;
        }
        i = i + 1;
    }
    false
}

/// Deletes every key of `keys`.
pub fn remove_keys<K: ColumnKey, V>(s: &mut Vec<(K, V)>, keys: &Vec<K>)
    ensures
        column_map(final(s)@) == column_map(old(s)@).remove_keys(keys@.to_set()),
{
    let ghost before = old(s)@;
    let ghost gone = keys@.to_set();
    let mut i: usize = 0;
    while i < s.len()
        invariant
            i <= s.len(),
            gone == keys@.to_set(),
            forall|j: int| 0 <= j < i ==> !gone.contains((#[trigger] s@[j]).0),
            column_map(s@).remove_keys(gone) == column_map(before).remove_keys(gone),
        decreases s.len() - i,
    {
        if contains_key(keys, &s[i].0) {
            let ghost k = s@[i as int].0;
            proof {
                lemma_column_remove(s@, i as int, k);
                assert(column_map(s@.remove(i as int)).remove_keys(gone) =~= column_map(
                    s@.remove(i as int),
                ).remove(k).remove_keys(gone));
                assert(column_map(s@).remove_keys(gone) =~= column_map(s@).remove(k).remove_keys(gone));
            }
            s.remove(i);
        } else {
            i = i + 1;
        }
    }
    assert forall|k: K| gone.contains(k) implies !column_map(s@).contains_key(k) by {
        lemma_column_dom(s@, k);
    }
    assert(column_map(s@).remove_keys(gone) =~= column_map(s@));
}

} // verus!
