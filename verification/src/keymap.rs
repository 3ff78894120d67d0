//! An insertion-ordered map keyed by byte strings, used for contract storage
//! and account balances.
//!
//! The keys are byte strings, and vstd's contracts for `std`'s hash maps
//! hold only for keys that obey its key model (integers, `bool`, boxes of
//! them); so the map is a vector of entries with distinct keys, whose view
//! is the `Map` that the contracts speak of.

use vstd::prelude::*;

verus! {

/// Byte-wise equality of two byte slices.
pub fn bytes_eq(a: &[u8], b: &[u8]) -> (r: bool)
    ensures
        r == (a@ == b@),
{
    if a.len() != b.len() {
        return false;
    }
    let mut i: usize = 0;
    while i < a.len()
        invariant
            a.len() == b.len(),
            i <= a.len(),
            forall|j: int| 0 <= j < i ==> a@[j] == b@[j],
        decreases a.len() - i,
    {
        if a[i] != b[i] {
            return false;
        }
        i += 1;
    }
    assert(a@ =~= b@);
    true
}

/// The map described by a list of entries (a later entry overrides an earlier
/// one with the same key).
pub open spec fn entries_map<V: View>(s: Seq<(Vec<u8>, V)>) -> Map<Seq<u8>, V::V>
    decreases s.len(),
{
    if s.len() == 0 {
        Map::empty()
    } else {
        entries_map(s.drop_last()).insert(s.last().0@, s.last().1@)
    }
}

/// No two entries share a key.
pub open spec fn distinct_keys<V>(s: Seq<(Vec<u8>, V)>) -> bool {
    forall|i: int, j: int| 0 <= i < j < s.len() ==> s[i].0@ != s[j].0@
}

/// A map from byte strings to values, kept as a list of distinct keys.
#[derive(Debug)]
pub struct KeyedMap<V> {
    entries: Vec<(Vec<u8>, V)>,
}

/// Contract storage: byte keys to byte values.
pub type ByteStore = KeyedMap<Vec<u8>>;

/// Account balances keyed by address bytes.
pub type BalanceMap = KeyedMap<u64>;

impl<V: View> View for KeyedMap<V> {
    type V = Map<Seq<u8>, V::V>;

    closed spec fn view(&self) -> Map<Seq<u8>, V::V> {
        entries_map(self.entries@)
    }
}

proof fn lemma_entries_map<V: View>(s: Seq<(Vec<u8>, V)>)
    requires
        distinct_keys(s),
    ensures
        entries_map(s).dom().finite(),
        entries_map(s).dom().len() == s.len(),
        forall|k: Seq<u8>| #[trigger] entries_map(s).contains_key(k) <==> exists|i: int| 0 <= i < s.len() && s[i].0@ == k,
        forall|i: int| 0 <= i < s.len() ==> #[trigger] entries_map(s)[s[i].0@] == s[i].1@,
    decreases s.len(),
{
    if s.len() > 0 {
        let t = s.drop_last();
        lemma_entries_map(t);
        assert forall|k: Seq<u8>| #[trigger] entries_map(s).contains_key(k) <==> exists|i: int| 0 <= i < s.len() && s[i].0@ == k by {
            if entries_map(s).contains_key(k) && k != s.last().0@ {
                let i = choose|i: int| 0 <= i < t.len() && t[i].0@ == k;
                assert(s[i].0@ == k);
            }
            if exists|i: int| 0 <= i < s.len() && s[i].0@ == k {
                let i = choose|i: int| 0 <= i < s.len() && s[i].0@ == k;
                if i < t.len() {
                    assert(t[i].0@ == k);
                }
            }
        }
        assert forall|i: int| 0 <= i < s.len() implies #[trigger] entries_map(s)[s[i].0@] == s[i].1@ by {
            if i < t.len() {
                assert(t[i] == s[i]);
            }
        }
        assert(!entries_map(t).contains_key(s.last().0@)) by {
            if entries_map(t).contains_key(s.last().0@) {
                let i = choose|i: int| 0 <= i < t.len() && t[i].0@ == s.last().0@;
                assert(s[i].0@ == s[s.len() - 1].0@);
            }
        }
    }
}

impl<V> KeyedMap<V> {
    /// Keys are distinct.
    #[verifier::type_invariant]
    spec fn wf(&self) -> bool {
        distinct_keys(self.entries@)
    }
}

impl<V: View> KeyedMap<V> {

    /// An empty map.
    pub fn new() -> (m: Self)
        ensures
            m@ == Map::<Seq<u8>, V::V>::empty(),
    {
        KeyedMap { entries: Vec::new() }
    }

    /// Number of keys.
    pub fn len(&self) -> (n: usize)
        ensures
            n == self@.dom().len(),
    {
        proof {
            use_type_invariant(self);
            lemma_entries_map(self.entries@);
        }
        self.entries.len()
    }

    /// Position of `key`, if present.
    fn find(&self, key: &[u8]) -> (r: Option<usize>)
        ensures
            r matches Some(i) ==> i < self.entries@.len() && self.entries@[i as int].0@ == key@,
            r is None ==> forall|i: int| 0 <= i < self.entries@.len() ==> self.entries@[i].0@ != key@,
    {
        let mut i: usize = 0;
        while i < self.entries.len()
            invariant
                i <= self.entries@.len(),
                forall|j: int| 0 <= j < i ==> self.entries@[j].0@ != key@,
            decreases self.entries@.len() - i,
        {
            if bytes_eq(self.entries[i].0.as_slice(), key) {
                return Some(i);
            }
            i += 1;
        }
        None
    }

    /// Whether `key` is present.
    pub fn contains(&self, key: &[u8]) -> (b: bool)
        ensures
            b == self@.contains_key(key@),
    {
        proof {
            use_type_invariant(self);
            lemma_entries_map(self.entries@);
        }
        match self.find(key) {
            Some(i) => true,
            None => false,
        }
    }

    /// The value stored under `key`.
    pub fn get(&self, key: &[u8]) -> (r: Option<&V>)
        ensures
            r matches Some(v) ==> self@.contains_key(key@) && v@ == self@[key@],
            r is None ==> !self@.contains_key(key@),
    {
        proof {
            use_type_invariant(self);
            lemma_entries_map(self.entries@);
        }
        match self.find(key) {
            Some(i) => Some(&self.entries[i].1),
            None => None,
        }
    }

    /// Insert or overwrite the value under `key`.
    pub fn insert(&mut self, key: Vec<u8>, value: V)
        ensures
            final(self)@ == old(self)@.insert(key@, value@),
    {
        proof {
            use_type_invariant(&*self);
            lemma_entries_map(self.entries@);
        }
        let ghost old_entries = self.entries@;
        let ghost oldm = entries_map(old_entries);
        let ghost kv = key@;
        let ghost vv = value@;
        let found = self.find(key.as_slice());
        let mut entries: Vec<(Vec<u8>, V)> = Vec::new();
        std::mem::swap(&mut entries, &mut self.entries);
        match found {
            Some(i) => {
                entries.set(i, (key, value));
                proof {
                    let s = entries@;
                    assert(distinct_keys(s));
                    lemma_entries_map(s);
                    assert forall|k: Seq<u8>| #[trigger] entries_map(s).contains_key(k) == oldm.insert(kv, vv).contains_key(k) by {
                        if exists|j: int| 0 <= j < s.len() && s[j].0@ == k {
                            let j = choose|j: int| 0 <= j < s.len() && s[j].0@ == k;
                            if j != i {
                                assert(old_entries[j].0@ == k);
                            }
                        }
                        if oldm.contains_key(k) {
                            let j = choose|j: int| 0 <= j < old_entries.len() && old_entries[j].0@ == k;
                            if j != i {
                                assert(s[j].0@ == k);
                            } else {
                                assert(s[i as int].0@ == k);
                            }
                        }
                    }
                    assert forall|k: Seq<u8>| #[trigger] entries_map(s).contains_key(k) implies entries_map(s)[k] == oldm.insert(kv, vv)[k] by {
                        let j = choose|j: int| 0 <= j < s.len() && s[j].0@ == k;
                        if j != i {
                            assert(old_entries[j] == s[j]);
                        }
                    }
                    assert(entries_map(s) =~= oldm.insert(kv, vv));
                }
            },
            None => {
                entries.push((key, value));
                proof {
                    let s = entries@;
                    assert(s.drop_last() =~= old_entries);
                    assert(distinct_keys(s));
                }
            },
        }
        self.entries = entries;
    }
}

impl<V: View> KeyedMap<V> {
    /// The entries, consuming the map; no two share a key.
    pub fn into_entries(self) -> (v: Vec<(Vec<u8>, V)>)
        ensures
            entries_map(v@) == self@,
            distinct_keys(v@),
    {
        proof {
            use_type_invariant(&self);
        }
        self.entries
    }
}

impl<V: View> KeyedMap<V> {
    /// The keys, each once.
    pub fn keys(&self) -> (ks: Vec<Vec<u8>>)
        ensures
            ks@.len() == self@.dom().len(),
            forall|i: int| 0 <= i < ks@.len() ==> self@.contains_key(#[trigger] ks@[i]@),
            forall|k: Seq<u8>| #[trigger] self@.contains_key(k) ==> exists|i: int| 0 <= i < ks@.len() && ks@[i]@ == k,
            forall|i: int, j: int| 0 <= i < j < ks@.len() ==> ks@[i]@ != ks@[j]@,
    {
        proof {
            use_type_invariant(self);
            lemma_entries_map(self.entries@);
        }
        let mut ks: Vec<Vec<u8>> = Vec::new();
        let mut i: usize = 0;
        while i < self.entries.len()
            invariant
                i <= self.entries@.len(),
                ks@.len() == i,
                forall|j: int| 0 <= j < i ==> (#[trigger] ks@[j])@ == self.entries@[j].0@,
            decreases self.entries@.len() - i,
        {
            ks.push(vstd::slice::slice_to_vec(self.entries[i].0.as_slice()));
            i += 1;
        }
        proof {
            assert forall|k: Seq<u8>| #[trigger] self@.contains_key(k) implies exists|j: int| 0 <= j < ks@.len() && ks@[j]@ == k by {
                let j = choose|j: int| 0 <= j < self.entries@.len() && self.entries@[j].0@ == k;
                assert(ks@[j]@ == k);
            }
            assert forall|j: int| 0 <= j < ks@.len() implies self@.contains_key(#[trigger] ks@[j]@) by {
                assert(ks@[j]@ == self.entries@[j].0@);
            }
            assert forall|a: int, b: int| 0 <= a < b < ks@.len() implies ks@[a]@ != ks@[b]@ by {
                assert(ks@[a]@ == self.entries@[a].0@);
                assert(ks@[b]@ == self.entries@[b].0@);
            }
        }
        ks
    }
}

impl KeyedMap<u64> {
    /// A copy with the same contents.
    pub fn duplicate(&self) -> (m: Self)
        ensures
            m@ == self@,
    {
        proof { use_type_invariant(self); }
        let mut entries: Vec<(Vec<u8>, u64)> = Vec::new();
        let mut i: usize = 0;
        while i < self.entries.len()
            invariant
                i <= self.entries@.len(),
                entries@.len() == i,
                forall|j: int| 0 <= j < i ==> #[trigger] entries@[j].0@ == self.entries@[j].0@
                    && entries@[j].1 == self.entries@[j].1,
            decreases self.entries@.len() - i,
        {
            let k = vstd::slice::slice_to_vec(self.entries[i].0.as_slice());
            entries.push((k, self.entries[i].1));
            i += 1;
        }
        proof { lemma_same_entries(entries@, self.entries@); }
        KeyedMap { entries }
    }
}

impl KeyedMap<Vec<u8>> {
    /// A copy with the same contents.
    pub fn duplicate(&self) -> (m: Self)
        ensures
            m@ == self@,
    {
        proof { use_type_invariant(self); }
        let mut entries: Vec<(Vec<u8>, Vec<u8>)> = Vec::new();
        let mut i: usize = 0;
        while i < self.entries.len()
            invariant
                i <= self.entries@.len(),
                entries@.len() == i,
                forall|j: int| 0 <= j < i ==> #[trigger] entries@[j].0@ == self.entries@[j].0@
                    && entries@[j].1@ == self.entries@[j].1@,
            decreases self.entries@.len() - i,
        {
            let k = vstd::slice::slice_to_vec(self.entries[i].0.as_slice());
            let v = vstd::slice::slice_to_vec(self.entries[i].1.as_slice());
            entries.push((k, v));
            i += 1;
        }
        proof { lemma_same_entries(entries@, self.entries@); }
        KeyedMap { entries }
    }
}

proof fn lemma_same_entries<V: View>(a: Seq<(Vec<u8>, V)>, b: Seq<(Vec<u8>, V)>)
    requires
        a.len() == b.len(),
        forall|j: int| 0 <= j < a.len() ==> #[trigger] a[j].0@ == b[j].0@ && a[j].1@ == b[j].1@,
    ensures
        entries_map(a) == entries_map(b),
        distinct_keys(a) == distinct_keys(b),
    decreases a.len(),
{
    if a.len() > 0 {
        lemma_same_entries(a.drop_last(), b.drop_last());
        assert(a[a.len() - 1].0@ == b[b.len() - 1].0@);
    }
    assert forall|i: int, j: int| 0 <= i < j < a.len() implies (a[i].0@ != a[j].0@ <==> b[i].0@ != b[j].0@) by {
        assert(a[i].0@ == b[i].0@);
        assert(a[j].0@ == b[j].0@);
    }
}

} // verus!
