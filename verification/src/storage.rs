//! Persistent per-contract key-value storage: a map from 64-bit keys to
//! 64-bit signed values, held as an association list with unique keys and
//! viewed as a `Map<u64, i64>`.

use vstd::prelude::*;

verus! {

/// The map described by an association list, later entries taking precedence.
pub open spec fn map_of(s: Seq<(u64, i64)>) -> Map<u64, i64>
    decreases s.len(),
{
    if s.len() == 0 {
        Map::empty()
    } else {
        map_of(s.drop_last()).insert(s.last().0, s.last().1)
    }
}

/// No key occurs twice in the list.
pub open spec fn keys_unique(s: Seq<(u64, i64)>) -> bool {
    forall|i: int, j: int| 0 <= i < j < s.len() ==> s[i].0 != s[j].0
}

proof fn lemma_map_of_contains(s: Seq<(u64, i64)>, k: u64)
    ensures
        map_of(s).dom().contains(k) <==> exists|i: int| 0 <= i < s.len() && s[i].0 == k,
    decreases s.len(),
{
    if s.len() > 0 {
        lemma_map_of_contains(s.drop_last(), k);
        if s.last().0 == k {
            assert(s[s.len() - 1].0 == k);
        } else {
            if exists|i: int| 0 <= i < s.len() && s[i].0 == k {
                let i = choose|i: int| 0 <= i < s.len() && s[i].0 == k;
                assert(s.drop_last()[i].0 == k);
            }
        }
    }
}

proof fn lemma_map_of_get(s: Seq<(u64, i64)>, i: int)
    requires
        keys_unique(s),
        0 <= i < s.len(),
    ensures
        map_of(s).dom().contains(s[i].0),
        map_of(s)[s[i].0] == s[i].1,
    decreases s.len(),
{
    if i < s.len() - 1 {
        assert(s.drop_last()[i] == s[i]);
        lemma_map_of_get(s.drop_last(), i);
        assert(s[i].0 != s.last().0);
    }
}

proof fn lemma_map_of_update(s: Seq<(u64, i64)>, j: int, v: i64)
    requires
        keys_unique(s),
        0 <= j < s.len(),
    ensures
        map_of(s.update(j, (s[j].0, v))) == map_of(s).insert(s[j].0, v),
    decreases s.len(),
{
    let t = s.update(j, (s[j].0, v));
    if j == s.len() - 1 {
        assert(t.drop_last() =~= s.drop_last());
        assert(map_of(t) =~= map_of(s).insert(s[j].0, v));
    } else {
        assert(s.drop_last().update(j, (s[j].0, v)) =~= t.drop_last());
        lemma_map_of_update(s.drop_last(), j, v);
        assert(s[j].0 != s.last().0);
        assert(map_of(t) =~= map_of(s).insert(s[j].0, v));
    }
}

/// Contract storage: a finite map from u64 keys to i64 values.
#[derive(Debug)]
pub struct Storage {
    entries: Vec<(u64, i64)>,
}

impl View for Storage {
    type V = Map<u64, i64>;

    closed spec fn view(&self) -> Map<u64, i64> {
        map_of(self.entries@)
    }
}

impl Storage {
    /// The underlying association list, in insertion order.
    pub closed spec fn entries_seq(&self) -> Seq<(u64, i64)> {
        self.entries@
    }

    /// Keys are unique in the underlying list.
    pub closed spec fn wf(&self) -> bool {
        keys_unique(self.entries@)
    }

    pub fn new() -> (s: Storage)
        ensures
            s.wf(),
            s@ == Map::<u64, i64>::empty(),
    {
        Storage { entries: Vec::new() }
    }

    /// The value stored under a key, if any.
    pub fn get(&self, key: u64) -> (r: Option<i64>)
        requires
            self.wf(),
        ensures
            r == if self@.dom().contains(key) {
                Some(self@[key])
            } else {
                None::<i64>
            },
    {
        let n = self.entries.len();
        let mut i: usize = 0;
        while i < n
            invariant
                self.wf(),
                n == self.entries@.len(),
                i <= n,
                forall|m: int| 0 <= m < i ==> self.entries@[m].0 != key,
            decreases n - i,
        {
            if self.entries[i].0 == key {
                proof {
                    lemma_map_of_get(self.entries@, i as int);
                }
                return Some(self.entries[i].1);
            }
            i += 1;
        }
        proof {
            lemma_map_of_contains(self.entries@, key);
        }
        None
    }

    /// Stores a value under a key, replacing any earlier value.
    pub fn insert(&mut self, key: u64, value: i64)
        requires
            old(self).wf(),
        ensures
            final(self).wf(),
            final(self)@ == old(self)@.insert(key, value),
    {
        let n = self.entries.len();
        let mut i: usize = 0;
        while i < n
            invariant
                self.wf(),
                *self == *old(self),
                n == self.entries@.len(),
                i <= n,
                forall|m: int| 0 <= m < i ==> self.entries@[m].0 != key,
            decreases n - i,
        {
            if self.entries[i].0 == key {
                proof {
                    lemma_map_of_update(self.entries@, i as int, value);
                }
                self.entries[i] = (key, value);
                return ;
            }
            i += 1;
        }
        proof {
            let s = self.entries@;
            assert(s.push((key, value)).drop_last() =~= s);
        }
        self.entries.push((key, value));
    }

    /// Copies the storage, entry for entry.
    pub fn duplicate(&self) -> (r: Storage)
        ensures
            r.entries_seq() == self.entries_seq(),
            r@ == self@,
            self.wf() ==> r.wf(),
    {
        let n = self.entries.len();
        let mut entries: Vec<(u64, i64)> = Vec::new();
        let mut i: usize = 0;
        while i < n
            invariant
                n == self.entries@.len(),
                i <= n,
                entries@ =~= self.entries@.take(i as int),
            decreases n - i,
        {
            entries.push(self.entries[i]);
            i += 1;
        }
        proof {
            assert(entries@ =~= self.entries@);
        }
        Storage { entries }
    }

    /// The entries as a slice of key-value pairs, in insertion order.
    pub fn entries(&self) -> (r: &Vec<(u64, i64)>)
        ensures
            r@ == self.entries_seq(),
    {
        &self.entries
    }
}

} // verus!
