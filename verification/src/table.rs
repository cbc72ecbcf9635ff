//! Tables of entries that lapse, each under a key of its own.
use vstd::prelude::*;

verus! {

/// A key that can be compared and copied.
pub trait TableKey: View + Sized {
    fn same_key(&self, other: &Self) -> (r: bool)
        ensures
            r == (self@ == other@),
    ;

    fn copy_key(&self) -> (r: Self)
        ensures
            r@ == self@,
    ;
}

/// A value with the time, in seconds since the epoch, at which it lapses.
pub trait TableValue: View + Sized {
    spec fn lapses_at(value: Self::V) -> u64;

    fn expiry(&self) -> (r: u64)
        ensures
            r == Self::lapses_at(self@),
    ;

    fn copy_value(&self) -> (r: Self)
        ensures
            r@ == self@,
    ;
}

impl TableKey for String {
    fn same_key(&self, other: &String) -> (r: bool) {
        crate::text::same_text(self.as_str(), other.as_str())
    }

    fn copy_key(&self) -> (r: String) {
        self.clone()
    }
}

impl TableKey for [u8; 32] {
    fn same_key(&self, other: &[u8; 32]) -> (r: bool) {
        let mut i: usize = 0;
        while i < 32
            invariant
                i <= 32,
                forall|j: int| 0 <= j < i ==> self@[j] == other@[j],
            decreases 32 - i,
        {
            if self[i] != other[i] {
                return false;
            }
            i = i + 1;
        }
        proof {
            assert(self@ =~= other@);
        }
        true
    }

    fn copy_key(&self) -> (r: [u8; 32]) {
        *self
    }
}

/// The map that a list of entries makes, later entries replacing earlier ones
/// under the same key.
pub open spec fn entries_map<K, V>(entries: Seq<(K, V)>) -> Map<K, V>
    decreases entries.len(),
{
    if entries.len() == 0 {
        Map::empty()
    } else {
        entries_map(entries.drop_last()).insert(entries.last().0, entries.last().1)
    }
}

/// Whether no two entries have the same key.
pub open spec fn distinct_keys<K, V>(entries: Seq<(K, V)>) -> bool {
    forall|i: int, j: int| 0 <= i < j < entries.len() ==> entries[i].0 != entries[j].0
}

/// The keys and values of entries.
pub open spec fn entry_views<K: TableKey, T: TableValue>(entries: Seq<(K, T)>) -> Seq<
    (<K as View>::V, <T as View>::V),
> {
    entries.map_values(|e: (K, T)| (e.0@, e.1@))
}

/// The entries that have not lapsed at `now`.
pub open spec fn unlapsed<K, T: TableValue>(
    map: Map<K, <T as View>::V>,
    now: u64,
) -> Map<K, <T as View>::V> {
    Map::new(|k: K| map.dom().contains(k) && T::lapses_at(map[k]) > now, |k: K| map[k])
}

pub proof fn lemma_entries_map_keys<K, V>(entries: Seq<(K, V)>, key: K)
    ensures
        entries_map(entries).dom().contains(key) <==> exists|i: int|
            0 <= i < entries.len() && (#[trigger] entries[i]).0 == key,
    decreases entries.len(),
{
    if entries.len() > 0 {
        let rest = entries.drop_last();
        lemma_entries_map_keys(rest, key);
        if entries_map(rest).dom().contains(key) {
            let i = choose|i: int| 0 <= i < rest.len() && (#[trigger] rest[i]).0 == key;
            assert(entries[i].0 == key);
        }
        if entries.last().0 == key {
            assert(entries[entries.len() - 1].0 == key);
        }
        if exists|i: int| 0 <= i < entries.len() && (#[trigger] entries[i]).0 == key {
            let i = choose|i: int| 0 <= i < entries.len() && (#[trigger] entries[i]).0 == key;
            if i < rest.len() {
                assert(rest[i].0 == key);
            }
        }
    }
}

/// Under distinct keys each entry is found under its key.
pub proof fn lemma_entries_map_value<K, V>(entries: Seq<(K, V)>, i: int)
    requires
        distinct_keys(entries),
        0 <= i < entries.len(),
    ensures
        entries_map(entries).dom().contains(entries[i].0),
        entries_map(entries)[entries[i].0] == entries[i].1,
    decreases entries.len(),
{
    if i < entries.len() - 1 {
        let rest = entries.drop_last();
        lemma_entries_map_value(rest, i);
        assert(rest[i] == entries[i]);
        assert(entries[i].0 != entries[entries.len() - 1].0);
    }
}

/// Entries under keys, no key twice.
pub struct Table<K: TableKey, T: TableValue> {
    entries: Vec<(K, T)>,
}

impl<K: TableKey, T: TableValue> View for Table<K, T> {
    type V = Map<<K as View>::V, <T as View>::V>;

    closed spec fn view(&self) -> Map<<K as View>::V, <T as View>::V> {
        entries_map(entry_views(self.entries@))
    }
}

impl<K: TableKey, T: TableValue> Table<K, T> {
    #[verifier::type_invariant]
    closed spec fn keys_are_distinct(&self) -> bool {
        distinct_keys(entry_views(self.entries@))
    }

    pub fn new() -> (r: Self)
        ensures
            r@ == Map::<<K as View>::V, <T as View>::V>::empty(),
    {
        let entries: Vec<(K, T)> = Vec::new();
        proof {
            assert(entry_views(entries@).len() == 0);
        }
        Table { entries }
    }

    /// The entries, in the order in which they were added.
    pub fn entries(&self) -> (r: &Vec<(K, T)>)
        ensures
            distinct_keys(entry_views(r@)),
            entries_map(entry_views(r@)) == self@,
    {
        proof {
            use_type_invariant(self);
        }
        &self.entries
    }

    pub fn get(&self, key: &K) -> (r: Option<&T>)
        ensures
            match r {
                Some(value) => self@.dom().contains(key@) && self@[key@] == value@,
                None => !self@.dom().contains(key@),
            },
    {
        proof {
            use_type_invariant(self);
        }
        let ghost all = entry_views(self.entries@);
        let mut i: usize = 0;
        while i < self.entries.len()
            invariant
                i <= self.entries@.len(),
                all == entry_views(self.entries@),
                distinct_keys(all),
                forall|j: int| 0 <= j < i ==> (#[trigger] all[j]).0 != key@,
            decreases self.entries@.len() - i,
        {
            if self.entries[i].0.same_key(key) {
                proof {
                    assert(all[i as int].0 == key@);
                    lemma_entries_map_value(all, i as int);
                }
                return Some(&self.entries[i].1);
            }
            i = i + 1;
        }
        proof {
            lemma_entries_map_keys(all, key@);
        }
        None
    }

    /// The table without its lapsed entries, and whether there were any.
    pub fn unlapsed(&self, now: u64) -> (r: (Self, bool))
        ensures
            r.0@ == unlapsed::<<K as View>::V, T>(self@, now),
            r.1 == (r.0@ != self@),
    {
        proof {
            use_type_invariant(self);
        }
        let ghost all = entry_views(self.entries@);
        let mut kept: Vec<(K, T)> = Vec::new();
        let mut changed = false;
        let mut i: usize = 0;
        proof {
            assert(all.take(0) =~= Seq::empty());
            assert(entry_views(kept@) =~= Seq::empty());
            assert(entries_map(entry_views(kept@)) =~= unlapsed::<<K as View>::V, T>(
                entries_map(all.take(0)),
                now,
            ));
        }
        while i < self.entries.len()
            invariant
                i <= self.entries@.len(),
                all == entry_views(self.entries@),
                distinct_keys(all),
                distinct_keys(entry_views(kept@)),
                entries_map(entry_views(kept@)) == unlapsed::<<K as View>::V, T>(
                    entries_map(all.take(i as int)),
                    now,
                ),
                changed == (exists|j: int|
                    0 <= j < i && T::lapses_at((#[trigger] all[j]).1) <= now),
            decreases self.entries@.len() - i,
        {
            let ghost before = entries_map(all.take(i as int));
            let ghost kept_before = entry_views(kept@);
            proof {
                assert(all.take(i + 1).drop_last() =~= all.take(i as int));
                assert(all.take(i + 1).last() == all[i as int]);
                lemma_entries_map_keys(all.take(i as int), all[i as int].0);
                assert(!before.dom().contains(all[i as int].0)) by {
                    if before.dom().contains(all[i as int].0) {
                        let j = choose|j: int|
                            0 <= j < i && (#[trigger] all.take(i as int)[j]).0 == all[i as int].0;
                        assert(all[j].0 != all[i as int].0);
                    }
                }
                lemma_entries_map_keys(kept_before, all[i as int].0);
            }
            if self.entries[i].1.expiry() > now {
                kept.push((self.entries[i].0.copy_key(), self.entries[i].1.copy_value()));
                proof {
                    assert(entry_views(kept@) =~= kept_before.push(all[i as int]));
                    assert(entry_views(kept@).drop_last() =~= kept_before);
                    assert(entries_map(entry_views(kept@)) =~= unlapsed::<<K as View>::V, T>(
                        entries_map(all.take(i + 1)),
                        now,
                    ));
                }
            } else {
                changed = true;
                proof {
                    assert(T::lapses_at(all[i as int].1) <= now);
                    assert(entries_map(entry_views(kept@)) =~= unlapsed::<<K as View>::V, T>(
                        entries_map(all.take(i + 1)),
                        now,
                    ));
                }
            }
            i = i + 1;
        }
        proof {
            assert(all.take(all.len() as int) =~= all);
            let rest = unlapsed::<<K as View>::V, T>(self@, now);
            if changed {
                let j = choose|j: int|
                    0 <= j < all.len() && T::lapses_at((#[trigger] all[j]).1) <= now;
                lemma_entries_map_value(all, j);
                assert(!rest.dom().contains(all[j].0));
            } else {
                assert forall|k: <K as View>::V| #[trigger]
                    self@.dom().contains(k) implies rest.dom().contains(k) by {
                    lemma_entries_map_keys(all, k);
                    let j = choose|j: int| 0 <= j < all.len() && (#[trigger] all[j]).0 == k;
                    lemma_entries_map_value(all, j);
                }
                assert(rest =~= self@);
            }
        }
        (Table { entries: kept }, changed)
    }

    /// The table without the entry under `key`.
    pub fn without(&self, key: &K) -> (r: Self)
        ensures
            r@ == self@.remove(key@),
    {
        proof {
            use_type_invariant(self);
        }
        let ghost all = entry_views(self.entries@);
        let mut kept: Vec<(K, T)> = Vec::new();
        let mut i: usize = 0;
        proof {
            assert(all.take(0) =~= Seq::empty());
            assert(entry_views(kept@) =~= Seq::empty());
            assert(entries_map(entry_views(kept@)) =~= entries_map(all.take(0)).remove(key@));
        }
        while i < self.entries.len()
            invariant
                i <= self.entries@.len(),
                all == entry_views(self.entries@),
                distinct_keys(all),
                distinct_keys(entry_views(kept@)),
                entries_map(entry_views(kept@)) == entries_map(all.take(i as int)).remove(key@),
            decreases self.entries@.len() - i,
        {
            let ghost before = entries_map(all.take(i as int));
            let ghost kept_before = entry_views(kept@);
            proof {
                assert(all.take(i + 1).drop_last() =~= all.take(i as int));
                assert(all.take(i + 1).last() == all[i as int]);
                lemma_entries_map_keys(all.take(i as int), all[i as int].0);
                assert(!before.dom().contains(all[i as int].0)) by {
                    if before.dom().contains(all[i as int].0) {
                        let j = choose|j: int|
                            0 <= j < i && (#[trigger] all.take(i as int)[j]).0 == all[i as int].0;
                        assert(all[j].0 != all[i as int].0);
                    }
                }
                lemma_entries_map_keys(kept_before, all[i as int].0);
            }
            if !self.entries[i].0.same_key(key) {
                kept.push((self.entries[i].0.copy_key(), self.entries[i].1.copy_value()));
                proof {
                    assert(entry_views(kept@) =~= kept_before.push(all[i as int]));
                    assert(entry_views(kept@).drop_last() =~= kept_before);
                }
            }
            proof {
                assert(entries_map(entry_views(kept@)) =~= entries_map(all.take(i + 1)).remove(
                    key@,
                ));
            }
            i = i + 1;
        }
        proof {
            assert(all.take(all.len() as int) =~= all);
        }
        Table { entries: kept }
    }

    /// The table with `value` under `key`, in place of what was there.
    pub fn with(&self, key: K, value: T) -> (r: Self)
        ensures
            r@ == self@.insert(key@, value@),
    {
        let rest = self.without(&key);
        proof {
            use_type_invariant(&rest);
        }
        let mut entries = rest.entries;
        let ghost before = entry_views(entries@);
        let ghost added = (key@, value@);
        entries.push((key, value));
        proof {
            lemma_entries_map_keys(before, added.0);
            assert(entry_views(entries@) =~= before.push(added));
            assert(entry_views(entries@).drop_last() =~= before);
            assert(self@.remove(added.0).insert(added.0, added.1) =~= self@.insert(
                added.0,
                added.1,
            ));
        }
        Table { entries }
    }

    pub fn copy(&self) -> (r: Self)
        ensures
            r@ == self@,
    {
        proof {
            use_type_invariant(self);
        }
        let ghost all = entry_views(self.entries@);
        let mut kept: Vec<(K, T)> = Vec::new();
        let mut i: usize = 0;
        while i < self.entries.len()
            invariant
                i <= self.entries@.len(),
                all == entry_views(self.entries@),
                distinct_keys(all),
                entry_views(kept@) == all.take(i as int),
            decreases self.entries@.len() - i,
        {
            let ghost kept_before = entry_views(kept@);
            kept.push((self.entries[i].0.copy_key(), self.entries[i].1.copy_value()));
            proof {
                assert(entry_views(kept@) =~= kept_before.push(all[i as int]));
                assert(all.take(i + 1) =~= all.take(i as int).push(all[i as int]));
            }
            i = i + 1;
        }
        proof {
            assert(all.take(all.len() as int) =~= all);
        }
        Table { entries: kept }
    }
}

} // verus!
