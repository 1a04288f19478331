//! A table from device ids to values, in the order the ids were first added.
use vstd::prelude::*;

use super::delay_buffer::{
    delay_fits, read_frames, with_delay_ms, with_pushed, DelayBuffer, DelayModel,
};
use crate::text::str_eq;
use vstd::string::StringExecFns;

verus! {

/// Whether some entry of `e` has the id `k`.
pub open spec fn has_key<V>(e: Seq<(String, V)>, k: Seq<char>) -> bool {
    exists|i: int| 0 <= i < e.len() && (#[trigger] e[i]).0@ == k
}

/// The position of an entry of `e` with the id `k`.
pub open spec fn key_index<V>(e: Seq<(String, V)>, k: Seq<char>) -> int {
    choose|i: int| 0 <= i < e.len() && (#[trigger] e[i]).0@ == k
}

/// No two entries of `e` have the same id.
pub open spec fn keys_distinct<V>(e: Seq<(String, V)>) -> bool {
    forall|i: int, j: int|
        0 <= i < e.len() && 0 <= j < e.len() && i != j ==> (#[trigger] e[i]).0@ != (
        #[trigger] e[j]).0@
}

/// The map that the entries `e` describe.
pub open spec fn entries_map<V>(e: Seq<(String, V)>) -> Map<Seq<char>, V> {
    Map::new(|k: Seq<char>| has_key(e, k), |k: Seq<char>| e[key_index(e, k)].1)
}

/// A table from device ids to values of type `V`.
pub struct DeviceTable<V> {
    entries: Vec<(String, V)>,
}

impl<V> View for DeviceTable<V> {
    type V = Map<Seq<char>, V>;

    closed spec fn view(&self) -> Map<Seq<char>, V> {
        entries_map(self.entries@)
    }
}

/// In distinct entries, the entry at `i` is the one the map reads for its id.
proof fn lemma_entry_at<V>(e: Seq<(String, V)>, i: int)
    requires
        keys_distinct(e),
        0 <= i < e.len(),
    ensures
        has_key(e, e[i].0@),
        key_index(e, e[i].0@) == i,
        entries_map(e).dom().contains(e[i].0@),
        entries_map(e)[e[i].0@] == e[i].1,
{
    assert(has_key(e, e[i].0@));
    let j = key_index(e, e[i].0@);
    assert(e[j].0@ == e[i].0@);
}

impl<V> DeviceTable<V> {
    /// The table's entries have distinct ids.
    pub closed spec fn wf(&self) -> bool {
        keys_distinct(self.entries@)
    }

    /// The ids in the order they were first added.
    pub closed spec fn key_order(&self) -> Seq<Seq<char>> {
        self.entries@.map_values(|e: (String, V)| e.0@)
    }

    /// An empty table.
    pub fn new() -> (r: Self)
        ensures
            r.wf(),
            r@ == Map::<Seq<char>, V>::empty(),
    {
        let r = DeviceTable { entries: Vec::new() };
        assert(r@ =~= Map::<Seq<char>, V>::empty());
        r
    }

    /// The number of entries.
    pub fn len(&self) -> (r: usize)
        requires
            self.wf(),
        ensures
            r == self@.dom().len(),
            r == self.key_order().len(),
    {
        proof {
            self.lemma_dom_is_keys();
        }
        self.entries.len()
    }

    pub proof fn lemma_dom_is_keys(&self)
        requires
            self.wf(),
        ensures
            self@.dom() == self.key_order().to_set(),
            self.key_order().no_duplicates(),
            self@.dom().finite(),
            self@.dom().len() == self.key_order().len(),
    {
        let ks = self.key_order();
        assert forall|i: int, j: int| 0 <= i < ks.len() && 0 <= j < ks.len() && i != j implies ks[i]
            != ks[j] by {
            assert(self.entries@[i].0@ != self.entries@[j].0@);
        }
        assert(self@.dom() =~= ks.to_set()) by {
            assert forall|k: Seq<char>| self@.dom().contains(k) implies ks.to_set().contains(k) by {
                let i = key_index(self.entries@, k);
                assert(ks[i] == k);
            }
            assert forall|k: Seq<char>| ks.to_set().contains(k) implies self@.dom().contains(k) by {
                let i = choose|i: int| 0 <= i < ks.len() && ks[i] == k;
                assert(self.entries@[i].0@ == k);
            }
        }
        ks.unique_seq_to_set();
    }

    /// The position of the entry with id `key`, if any.
    fn find(&self, key: &str) -> (r: Option<usize>)
        requires
            self.wf(),
        ensures
            match r {
                Some(i) => i < self.entries@.len() && self.entries@[i as int].0@ == key@,
                None => !has_key(self.entries@, key@),
            },
    {
        let mut i: usize = 0;
        while i < self.entries.len()
            invariant
                i <= self.entries@.len(),
                forall|j: int| 0 <= j < i ==> (#[trigger] self.entries@[j]).0@ != key@,
            decreases self.entries@.len() - i,
        {
            if str_eq(self.entries[i].0.as_str(), key) {
                return Some(i);
            }
            i = i + 1;
        }
        None
    }

    /// Whether an entry has the id `key`.
    pub fn contains_key(&self, key: &str) -> (r: bool)
        requires
            self.wf(),
        ensures
            r == self@.dom().contains(key@),
    {
        self.find(key).is_some()
    }

    /// The value of the entry with id `key`, if any.
    pub fn get(&self, key: &str) -> (r: Option<&V>)
        requires
            self.wf(),
        ensures
            match r {
                Some(v) => self@.dom().contains(key@) && *v == self@[key@],
                None => !self@.dom().contains(key@),
            },
    {
        match self.find(key) {
            Some(i) => {
                proof {
                    lemma_entry_at(self.entries@, i as int);
                }
                Some(&self.entries[i].1)
            },
            None => None,
        }
    }

    /// Sets the value of `key` to `value`, adding the entry if there is none.
    pub fn insert(&mut self, key: String, value: V)
        requires
            old(self).wf(),
        ensures
            final(self).wf(),
            final(self)@ == old(self)@.insert(key@, value),
            old(self)@.dom().contains(key@) ==> final(self).key_order() == old(self).key_order(),
            !old(self)@.dom().contains(key@) ==> final(self).key_order() == old(
                self,
            ).key_order().push(key@),
    {
        let ghost e0 = self.entries@;
        match self.find(key.as_str()) {
            Some(i) => {
                self.entries.set(i, (key, value));
                let ghost e1 = self.entries@;
                assert(keys_distinct(e1)) by {
                    assert forall|a: int, b: int|
                        0 <= a < e1.len() && 0 <= b < e1.len() && a != b implies (#[trigger] e1[a]).0@
                        != (#[trigger] e1[b]).0@ by {
                        assert(e1[a].0@ == e0[a].0@);
                        assert(e1[b].0@ == e0[b].0@);
                    }
                }
                assert(entries_map(e1) =~= entries_map(e0).insert(key@, value)) by {
                    assert forall|k: Seq<char>| #[trigger] has_key(e1, k) == (has_key(e0, k) || k
                        == key@) by {
                        if has_key(e0, k) {
                            let j = key_index(e0, k);
                            assert(e1[j].0@ == k);
                        }
                        if has_key(e1, k) {
                            let j = key_index(e1, k);
                            assert(e0[j].0@ == k);
                        }
                    }
                    assert forall|k: Seq<char>| has_key(e1, k) implies entries_map(e1)[k]
                        == entries_map(e0).insert(key@, value)[k] by {
                        let j = key_index(e1, k);
                        lemma_entry_at(e1, j);
                        if k != key@ {
                            lemma_entry_at(e0, j);
                        }
                    }
                }
                assert(e1.map_values(|e: (String, V)| e.0@) =~= e0.map_values(
                    |e: (String, V)| e.0@,
                ));
                proof {
                    lemma_entry_at(e0, i as int);
                }
            },
            None => {
                self.entries.push((key, value));
                let ghost e1 = self.entries@;
                assert(keys_distinct(e1)) by {
                    assert forall|a: int, b: int|
                        0 <= a < e1.len() && 0 <= b < e1.len() && a != b implies (#[trigger] e1[a]).0@
                        != (#[trigger] e1[b]).0@ by {
                        if a < e0.len() && b < e0.len() {
                            assert(e1[a] == e0[a]);
                            assert(e1[b] == e0[b]);
                        } else if a < e0.len() {
                            assert(e1[a] == e0[a]);
                        } else {
                            assert(e1[b] == e0[b]);
                        }
                    }
                }
                assert(entries_map(e1) =~= entries_map(e0).insert(key@, value)) by {
                    assert forall|k: Seq<char>| #[trigger] has_key(e1, k) == (has_key(e0, k) || k
                        == key@) by {
                        if has_key(e0, k) {
                            let j = key_index(e0, k);
                            assert(e1[j] == e0[j]);
                        }
                        if k == key@ {
                            assert(e1[e0.len() as int].0@ == k);
                        }
                        if has_key(e1, k) && k != key@ {
                            let j = key_index(e1, k);
                            assert(e1[j] == e0[j]);
                        }
                    }
                    assert forall|k: Seq<char>| has_key(e1, k) implies entries_map(e1)[k]
                        == entries_map(e0).insert(key@, value)[k] by {
                        let j = key_index(e1, k);
                        lemma_entry_at(e1, j);
                        if k != key@ {
                            assert(e1[j] == e0[j]);
                            lemma_entry_at(e0, j);
                        }
                    }
                }
                assert(e1.map_values(|e: (String, V)| e.0@) =~= e0.map_values(
                    |e: (String, V)| e.0@,
                ).push(key@));
            },
        }
    }

    /// Removes the entry with id `key`, if there is one, and gives its value.
    pub fn remove_entry(&mut self, key: &str) -> (r: Option<V>)
        requires
            old(self).wf(),
        ensures
            final(self).wf(),
            final(self)@ == old(self)@.remove(key@),
            match r {
                Some(v) => old(self)@.dom().contains(key@) && v == old(self)@[key@],
                None => !old(self)@.dom().contains(key@),
            },
    {
        let ghost e0 = self.entries@;
        match self.find(key) {
            Some(i) => {
                proof {
                    lemma_entry_at(e0, i as int);
                }
                let (_, value) = self.entries.remove(i);
                let ghost e1 = self.entries@;
                assert(forall|j: int| 0 <= j < i ==> e1[j] == e0[j]);
                assert(forall|j: int| i <= j < e1.len() ==> e1[j] == e0[j + 1]);
                assert(keys_distinct(e1)) by {
                    assert forall|a: int, b: int|
                        0 <= a < e1.len() && 0 <= b < e1.len() && a != b implies (#[trigger] e1[a]).0@
                        != (#[trigger] e1[b]).0@ by {
                        let a0 = if a < i {
                            a
                        } else {
                            a + 1
                        };
                        let b0 = if b < i {
                            b
                        } else {
                            b + 1
                        };
                        assert(e1[a] == e0[a0]);
                        assert(e1[b] == e0[b0]);
                    }
                }
                assert(entries_map(e1) =~= entries_map(e0).remove(key@)) by {
                    assert forall|k: Seq<char>| #[trigger] has_key(e1, k) == (has_key(e0, k) && k
                        != key@) by {
                        if has_key(e1, k) {
                            let j = key_index(e1, k);
                            let j0 = if j < i {
                                j
                            } else {
                                j + 1
                            };
                            assert(e1[j] == e0[j0]);
                            assert(e0[i as int].0@ != e0[j0].0@);
                        }
                        if has_key(e0, k) && k != key@ {
                            let j0 = key_index(e0, k);
                            if j0 < i {
                                assert(e1[j0] == e0[j0]);
                            } else {
                                assert(e1[j0 - 1] == e0[j0]);
                            }
                        }
                    }
                    assert forall|k: Seq<char>| has_key(e1, k) implies entries_map(e1)[k]
                        == entries_map(e0).remove(key@)[k] by {
                        let j = key_index(e1, k);
                        lemma_entry_at(e1, j);
                        let j0 = if j < i {
                            j
                        } else {
                            j + 1
                        };
                        assert(e1[j] == e0[j0]);
                        lemma_entry_at(e0, j0);
                    }
                }
                Some(value)
            },
            None => {
                assert(entries_map(e0) =~= entries_map(e0).remove(key@));
                None
            },
        }
    }

    /// Removes the entry with id `key`, if there is one.
    pub fn remove(&mut self, key: &str)
        requires
            old(self).wf(),
        ensures
            final(self).wf(),
            final(self)@ == old(self)@.remove(key@),
    {
        let _ = self.remove_entry(key);
    }

    /// Removes every entry.
    pub fn clear(&mut self)
        ensures
            final(self).wf(),
            final(self)@ == Map::<Seq<char>, V>::empty(),
    {
        self.entries.clear();
        assert(self@ =~= Map::<Seq<char>, V>::empty());
    }

    /// The ids, in the order they were first added.
    pub fn keys(&self) -> (r: Vec<String>)
        requires
            self.wf(),
        ensures
            r@.map_values(|k: String| k@) == self.key_order(),
    {
        let mut r: Vec<String> = Vec::new();
        let mut i: usize = 0;
        while i < self.entries.len()
            invariant
                i <= self.entries@.len(),
                r@.map_values(|k: String| k@) == self.key_order().take(i as int),
            decreases self.entries@.len() - i,
        {
            let ghost before = r@.map_values(|k: String| k@);
            let k = String::from_str(self.entries[i].0.as_str());
            assert(self.key_order()[i as int] == self.entries@[i as int].0@);
            r.push(k);
            assert(r@.map_values(|k: String| k@) =~= before.push(k@));
            assert(self.key_order().take(i + 1) =~= self.key_order().take(i as int).push(
                self.key_order()[i as int],
            ));
            i = i + 1;
        }
        assert(self.key_order().take(i as int) =~= self.key_order());
        r
    }

    /// The id of the first entry, if any.
    pub fn first_key(&self) -> (r: Option<String>)
        requires
            self.wf(),
        ensures
            match r {
                Some(k) => self@.dom().contains(k@) && self.key_order().len() > 0
                    && k@ == self.key_order()[0],
                None => self@.dom() == Set::<Seq<char>>::empty(),
            },
    {
        if self.entries.len() == 0 {
            assert(self@.dom() =~= Set::<Seq<char>>::empty());
            None
        } else {
            proof {
                lemma_entry_at(self.entries@, 0);
            }
            Some(String::from_str(self.entries[0].0.as_str()))
        }
    }
}

impl<V: Copy> DeviceTable<V> {
    /// Sets every entry's value to `value`.
    pub fn set_all(&mut self, value: V)
        requires
            old(self).wf(),
        ensures
            final(self).wf(),
            final(self)@.dom() == old(self)@.dom(),
            forall|k: Seq<char>| #[trigger] final(self)@.dom().contains(k) ==> final(self)@[k]
                == value,
            final(self).key_order() == old(self).key_order(),
    {
        let ghost e0 = self.entries@;
        let mut i: usize = 0;
        while i < self.entries.len()
            invariant
                i <= self.entries@.len() == e0.len(),
                forall|j: int| 0 <= j < e0.len() ==> (#[trigger] self.entries@[j]).0@ == e0[j].0@,
                forall|j: int| 0 <= j < i ==> (#[trigger] self.entries@[j]).1 == value,
            decreases e0.len() - i,
        {
            let ghost before = self.entries@;
            let key = String::from_str(self.entries[i].0.as_str());
            self.entries.set(i, (key, value));
            assert(forall|j: int|
                0 <= j < e0.len() && j != i ==> self.entries@[j] == before[j]);
            i = i + 1;
        }
        let ghost e1 = self.entries@;
        assert(keys_distinct(e1)) by {
            assert forall|a: int, b: int|
                0 <= a < e1.len() && 0 <= b < e1.len() && a != b implies (#[trigger] e1[a]).0@
                != (#[trigger] e1[b]).0@ by {
                assert(e1[a].0@ == e0[a].0@);
                assert(e1[b].0@ == e0[b].0@);
            }
        }
        assert forall|k: Seq<char>| #[trigger] has_key(e1, k) == has_key(e0, k) by {
            if has_key(e0, k) {
                let j = key_index(e0, k);
                assert(e1[j].0@ == e0[j].0@);
            }
            if has_key(e1, k) {
                let j = key_index(e1, k);
                assert(e1[j].0@ == e0[j].0@);
            }
        }
        assert(self@.dom() =~= entries_map(e0).dom());
        assert forall|k: Seq<char>| #[trigger] self@.dom().contains(k) implies self@[k] == value by {
            let j = key_index(e1, k);
            lemma_entry_at(e1, j);
        }
        assert(e1.map_values(|e: (String, V)| e.0@) =~= e0.map_values(|e: (String, V)| e.0@)) by {
            assert forall|j: int| 0 <= j < e1.len() implies e1[j].0@ == e0[j].0@ by {
                assert(e1[j].0@ == e0[j].0@);
            }
        }
    }
}

/// Entries with the same ids at the same places describe maps with the same
/// ids, each read from the same place.
proof fn lemma_same_keys<V, W>(e0: Seq<(String, V)>, e1: Seq<(String, W)>)
    requires
        keys_distinct(e0),
        e0.len() == e1.len(),
        forall|j: int| 0 <= j < e0.len() ==> (#[trigger] e1[j]).0@ == e0[j].0@,
    ensures
        keys_distinct(e1),
        entries_map(e1).dom() == entries_map(e0).dom(),
        forall|j: int| 0 <= j < e1.len() ==> #[trigger] entries_map(e1)[e1[j].0@] == e1[j].1,
        forall|j: int| 0 <= j < e0.len() ==> #[trigger] entries_map(e0)[e0[j].0@] == e0[j].1,
{
    assert forall|a: int, b: int|
        0 <= a < e1.len() && 0 <= b < e1.len() && a != b implies (#[trigger] e1[a]).0@ != (
        #[trigger] e1[b]).0@ by {
        assert(e1[a].0@ == e0[a].0@);
        assert(e1[b].0@ == e0[b].0@);
    }
    assert forall|k: Seq<char>| #[trigger] has_key(e1, k) == has_key(e0, k) by {
        if has_key(e0, k) {
            let j = key_index(e0, k);
            assert(e1[j].0@ == e0[j].0@);
        }
        if has_key(e1, k) {
            let j = key_index(e1, k);
            assert(e1[j].0@ == e0[j].0@);
        }
    }
    assert(entries_map(e1).dom() =~= entries_map(e0).dom());
    assert forall|j: int| 0 <= j < e1.len() implies #[trigger] entries_map(e1)[e1[j].0@] == e1[j].1 by {
        lemma_entry_at(e1, j);
    }
    assert forall|j: int| 0 <= j < e0.len() implies #[trigger] entries_map(e0)[e0[j].0@] == e0[j].1 by {
        lemma_entry_at(e0, j);
    }
}

impl DeviceTable<DelayBuffer> {
    /// Queues `data` behind what every delay line holds.
    pub fn push_to_all(&mut self, data: &[u32])
        requires
            old(self).wf(),
            forall|k: Seq<char>| #[trigger]
                old(self)@.dom().contains(k) ==> old(self)@[k]@.queue.len() + data@.len()
                    <= usize::MAX,
        ensures
            final(self).wf(),
            final(self)@.dom() == old(self)@.dom(),
            forall|k: Seq<char>| #[trigger]
                final(self)@.dom().contains(k) ==> final(self)@[k]@ == with_pushed(
                    old(self)@[k]@,
                    data@,
                ),
    {
        let ghost e0 = self.entries@;
        proof {
            lemma_same_keys(e0, e0);
            assert forall|j: int| 0 <= j < e0.len() implies (#[trigger] e0[j]).1@.queue.len()
                + data@.len() <= usize::MAX by {
                lemma_entry_at(e0, j);
                assert(old(self)@.dom().contains(e0[j].0@));
            }
        }
        let mut i: usize = 0;
        while i < self.entries.len()
            invariant
                keys_distinct(e0),
                self.entries@.len() == e0.len(),
                i <= e0.len(),
                forall|j: int| 0 <= j < e0.len() ==> (#[trigger] self.entries@[j]).0@ == e0[j].0@,
                forall|j: int| 0 <= j < i ==> (#[trigger] self.entries@[j]).1@ == with_pushed(
                    e0[j].1@,
                    data@,
                ),
                forall|j: int| i <= j < e0.len() ==> (#[trigger] self.entries@[j]).1 == e0[j].1,
                forall|j: int|
                    0 <= j < e0.len() ==> (#[trigger] e0[j]).1@.queue.len() + data@.len()
                        <= usize::MAX,
            decreases e0.len() - i,
        {
            let ghost before = self.entries@;
            let (k, mut b) = self.entries.remove(i);
            assert(b == e0[i as int].1);
            b.push_slice(data);
            self.entries.insert(i, (k, b));
            assert forall|j: int| 0 <= j < e0.len() && j != i implies self.entries@[j] == before[j] by {}
            i = i + 1;
        }
        proof {
            lemma_same_keys(e0, self.entries@);
            assert forall|k: Seq<char>| #[trigger] self@.dom().contains(k) implies self@[k]@
                == with_pushed(entries_map(e0)[k]@, data@) by {
                let j = key_index(self.entries@, k);
                assert(self.entries@[j].0@ == k);
                assert(e0[j].0@ == k);
            }
        }
    }

    /// The position of the line with id `key`, if any, together with the
    /// facts that tie it to the map.
    fn find_line(&self, key: &str) -> (r: Option<usize>)
        requires
            self.wf(),
        ensures
            match r {
                Some(i) => i < self.entries@.len() && self.entries@[i as int].0@ == key@
                    && self@.dom().contains(key@) && self@[key@] == self.entries@[i as int].1,
                None => !self@.dom().contains(key@),
            },
    {
        let r = self.find(key);
        proof {
            if r is Some {
                lemma_entry_at(self.entries@, r->0 as int);
            }
        }
        r
    }

    /// Sets the delay of the line `key`, when there is one, to `delay_ms`
    /// milliseconds at `sample_rate`.
    pub fn set_delay_of(&mut self, key: &str, delay_ms: u32, sample_rate: u32)
        requires
            old(self).wf(),
            old(self)@.dom().contains(key@) ==> delay_fits(
                delay_ms,
                sample_rate,
                old(self)@[key@]@.channels as usize,
            ),
        ensures
            final(self).wf(),
            final(self)@.dom() == old(self)@.dom(),
            forall|k: Seq<char>| #[trigger]
                final(self)@.dom().contains(k) ==> final(self)@[k]@ == if k == key@ {
                    with_delay_ms(old(self)@[k]@, delay_ms, sample_rate)
                } else {
                    old(self)@[k]@
                },
    {
        let ghost e0 = self.entries@;
        match self.find_line(key) {
            Some(i) => {
                let (k, mut b) = self.entries.remove(i);
                b.set_delay(delay_ms, sample_rate);
                self.entries.insert(i, (k, b));
                proof {
                    let e1 = self.entries@;
                    assert forall|j: int| 0 <= j < e0.len() implies (#[trigger] e1[j]).0@
                        == e0[j].0@ by {
                        if j != i {
                            assert(e1[j] == e0[j]);
                        }
                    }
                    lemma_same_keys(e0, e1);
                    assert forall|kk: Seq<char>| #[trigger] self@.dom().contains(kk) implies self@[kk]@
                        == if kk == key@ {
                        with_delay_ms(entries_map(e0)[kk]@, delay_ms, sample_rate)
                    } else {
                        entries_map(e0)[kk]@
                    } by {
                        let j = key_index(e1, kk);
                        assert(e1[j].0@ == kk);
                        if j != i {
                            assert(e1[j] == e0[j]);
                        } else {
                            assert(e0[j].0@ == key@);
                        }
                    }
                }
            },
            None => {},
        }
    }

    /// Reads `count` frames from the line `key`, when there is one.
    pub fn pop_frames_of(&mut self, key: &str, count: usize) -> (r: Option<Vec<u32>>)
        requires
            old(self).wf(),
        ensures
            final(self).wf(),
            final(self)@.dom() == old(self)@.dom(),
            r is Some <==> old(self)@.dom().contains(key@),
            r matches Some(v) ==> {
                let out = read_frames(
                    old(self)@[key@]@.queue,
                    old(self)@[key@]@.delay,
                    old(self)@[key@]@.channels,
                    count as nat,
                );
                &&& v@ == out.0
                &&& final(self)@[key@]@ == DelayModel { queue: out.1, ..old(self)@[key@]@ }
            },
            forall|k: Seq<char>| #[trigger]
                final(self)@.dom().contains(k) && k != key@ ==> final(self)@[k] == old(self)@[k],
    {
        let ghost e0 = self.entries@;
        match self.find_line(key) {
            Some(i) => {
                let (k, mut b) = self.entries.remove(i);
                let frames = b.pop_frames(count);
                let ghost nb = b@;
                self.entries.insert(i, (k, b));
                proof {
                    let e1 = self.entries@;
                    assert forall|j: int| 0 <= j < e0.len() implies (#[trigger] e1[j]).0@
                        == e0[j].0@ by {
                        if j != i {
                            assert(e1[j] == e0[j]);
                        }
                    }
                    lemma_same_keys(e0, e1);
                    assert(self@[key@] == e1[i as int].1);
                    assert forall|kk: Seq<char>| #[trigger]
                        self@.dom().contains(kk) && kk != key@ implies self@[kk]
                        == entries_map(e0)[kk] by {
                        let j = key_index(e1, kk);
                        assert(e1[j].0@ == kk);
                        assert(j != i);
                        assert(e1[j] == e0[j]);
                    }
                }
                Some(frames)
            },
            None => None,
        }
    }

    /// Whether `extra` more samples fit behind what every line holds.
    pub fn push_fits(&self, extra: usize) -> (r: bool)
        requires
            self.wf(),
        ensures
            r == forall|k: Seq<char>| #[trigger]
                self@.dom().contains(k) ==> self@[k]@.queue.len() + extra <= usize::MAX,
    {
        let mut i: usize = 0;
        while i < self.entries.len()
            invariant
                self.wf(),
                i <= self.entries@.len(),
                forall|j: int|
                    0 <= j < i ==> (#[trigger] self.entries@[j]).1@.queue.len() + extra
                        <= usize::MAX,
            decreases self.entries@.len() - i,
        {
            if self.entries[i].1.len() > usize::MAX - extra {
                proof {
                    lemma_entry_at(self.entries@, i as int);
                    assert(self@.dom().contains(self.entries@[i as int].0@));
                }
                return false;
            }
            i = i + 1;
        }
        assert forall|k: Seq<char>| #[trigger] self@.dom().contains(k) implies self@[k]@.queue.len()
            + extra <= usize::MAX by {
            let j = key_index(self.entries@, k);
            lemma_entry_at(self.entries@, j);
        }
        true
    }
    /// Sets the delay of every line that `delays` names to the delay it
    /// gives, at `sample_rate`; the other lines stay as they are.
    pub fn apply_delays(&mut self, delays: &DeviceTable<u32>, sample_rate: u32)
        requires
            old(self).wf(),
            delays.wf(),
            forall|k: Seq<char>| #[trigger]
                old(self)@.dom().contains(k) && delays@.dom().contains(k) ==> delay_fits(
                    delays@[k],
                    sample_rate,
                    old(self)@[k]@.channels as usize,
                ),
        ensures
            final(self).wf(),
            final(self)@.dom() == old(self)@.dom(),
            forall|k: Seq<char>| #[trigger]
                final(self)@.dom().contains(k) ==> final(self)@[k]@ == if delays@.dom().contains(
                    k,
                ) {
                    with_delay_ms(old(self)@[k]@, delays@[k], sample_rate)
                } else {
                    old(self)@[k]@
                },
    {
        let keys = delays.keys();
        proof {
            delays.lemma_dom_is_keys();
        }
        let ghost ks = keys@.map_values(|k: String| k@);
        let ghost m0 = self@;
        let mut i: usize = 0;
        while i < keys.len()
            invariant
                self.wf(),
                delays.wf(),
                ks == keys@.map_values(|k: String| k@),
                ks == delays.key_order(),
                delays@.dom() == ks.to_set(),
                i <= keys@.len(),
                self@.dom() == m0.dom(),
                forall|k: Seq<char>| #[trigger]
                    m0.dom().contains(k) && delays@.dom().contains(k) ==> delay_fits(
                        delays@[k],
                        sample_rate,
                        m0[k]@.channels as usize,
                    ),
                forall|k: Seq<char>| #[trigger]
                    self@.dom().contains(k) ==> self@[k]@ == if ks.take(i as int).contains(k) {
                        with_delay_ms(m0[k]@, delays@[k], sample_rate)
                    } else {
                        m0[k]@
                    },
            decreases keys@.len() - i,
        {
            let ghost key = ks[i as int];
            assert(keys@[i as int]@ == key);
            assert(ks.to_set().contains(key));
            let d = match delays.get(keys[i].as_str()) {
                Some(v) => *v,
                None => 0,
            };
            let ghost before = self@;
            self.set_delay_of(keys[i].as_str(), d, sample_rate);
            assert forall|k: Seq<char>| #[trigger] self@.dom().contains(k) implies self@[k]@ == if ks.take(
                i + 1,
            ).contains(k) {
                with_delay_ms(m0[k]@, delays@[k], sample_rate)
            } else {
                m0[k]@
            } by {
                assert(ks.take(i + 1) =~= ks.take(i as int).push(key));
                if k == key {
                    assert(ks.take(i + 1).contains(k)) by {
                        assert(ks.take(i + 1)[i as int] == k);
                    }
                } else {
                    if ks.take(i + 1).contains(k) {
                        let t = ks.take(i + 1);
                        let j = choose|j: int| 0 <= j < t.len() && #[trigger] t[j] == k;
                        assert(j < i);
                        assert(ks.take(i as int)[j] == k);
                    }
                    if ks.take(i as int).contains(k) {
                        let t = ks.take(i as int);
                        let j = choose|j: int| 0 <= j < t.len() && #[trigger] t[j] == k;
                        assert(ks.take(i + 1)[j] == k);
                    }
                }
            }
            i = i + 1;
        }
        assert(ks.take(keys@.len() as int) =~= ks);
        assert forall|k: Seq<char>| #[trigger] self@.dom().contains(k) implies self@[k]@ == if delays@.dom().contains(
            k,
        ) {
            with_delay_ms(m0[k]@, delays@[k], sample_rate)
        } else {
            m0[k]@
        } by {
            assert(ks.to_set().contains(k) == ks.contains(k));
        }
    }

    /// Whether every delay that `delays` gives a line fits the machine at
    /// `sample_rate` with the line's channels.
    pub fn delays_fit_lines(&self, delays: &DeviceTable<u32>, sample_rate: u32) -> (r: bool)
        requires
            self.wf(),
            delays.wf(),
        ensures
            r == forall|k: Seq<char>| #[trigger]
                self@.dom().contains(k) && delays@.dom().contains(k) ==> delay_fits(
                    delays@[k],
                    sample_rate,
                    self@[k]@.channels as usize,
                ),
    {
        let mut i: usize = 0;
        while i < self.entries.len()
            invariant
                self.wf(),
                delays.wf(),
                i <= self.entries@.len(),
                forall|j: int|
                    0 <= j < i && #[trigger] delays@.dom().contains(self.entries@[j].0@)
                        ==> delay_fits(
                        delays@[self.entries@[j].0@],
                        sample_rate,
                        self.entries@[j].1@.channels as usize,
                    ),
            decreases self.entries@.len() - i,
        {
            match delays.get(self.entries[i].0.as_str()) {
                Some(d) => {
                    if !super::delay_buffer::delay_fits_exec(
                        *d,
                        sample_rate,
                        self.entries[i].1.channels(),
                    ) {
                        proof {
                            lemma_entry_at(self.entries@, i as int);
                            assert(self@.dom().contains(self.entries@[i as int].0@));
                        }
                        return false;
                    }
                },
                None => {},
            }
            i = i + 1;
        }
        assert forall|k: Seq<char>| #[trigger]
            self@.dom().contains(k) && delays@.dom().contains(k) implies delay_fits(
            delays@[k],
            sample_rate,
            self@[k]@.channels as usize,
        ) by {
            let j = key_index(self.entries@, k);
            lemma_entry_at(self.entries@, j);
            assert(delays@.dom().contains(self.entries@[j].0@));
        }
        true
    }
}

} // verus!
