//! A small insertion-ordered table from names to numbers, used by the
//! compiler for function entry points, storage slots and local variables.

use vstd::prelude::*;

verus! {

/// The map described by a list of entries (a later entry overrides an earlier
/// one with the same name).
pub open spec fn names_map<V>(s: Seq<(String, V)>) -> Map<Seq<char>, V>
    decreases s.len(),
{
    if s.len() == 0 {
        Map::empty()
    } else {
        names_map(s.drop_last()).insert(s.last().0@, s.last().1)
    }
}

/// No two entries share a name.
pub open spec fn distinct_names<V>(s: Seq<(String, V)>) -> bool {
    forall|i: int, j: int| 0 <= i < j < s.len() ==> s[i].0@ != s[j].0@
}

/// A table from names to values, kept as a list of distinct names.
#[derive(Debug)]
pub struct NameTable<V> {
    entries: Vec<(String, V)>,
}

impl<V> View for NameTable<V> {
    type V = Map<Seq<char>, V>;

    closed spec fn view(&self) -> Map<Seq<char>, V> {
        names_map(self.entries@)
    }
}

proof fn lemma_names_map<V>(s: Seq<(String, V)>)
    requires
        distinct_names(s),
    ensures
        names_map(s).dom().finite(),
        names_map(s).dom().len() == s.len(),
        forall|k: Seq<char>| #[trigger] names_map(s).contains_key(k) <==> exists|i: int| 0 <= i < s.len() && s[i].0@ == k,
        forall|i: int| 0 <= i < s.len() ==> #[trigger] names_map(s)[s[i].0@] == s[i].1,
    decreases s.len(),
{
    if s.len() > 0 {
        let t = s.drop_last();
        lemma_names_map(t);
        assert forall|k: Seq<char>| #[trigger] names_map(s).contains_key(k) <==> exists|i: int| 0 <= i < s.len() && s[i].0@ == k by {
            if names_map(s).contains_key(k) && k != s.last().0@ {
                let i = choose|i: int| 0 <= i < t.len() && t[i].0@ == k;
                assert(s[i].0@ == k);
            }
            if exists|i: int| 0 <= i < s.len() && s[i].0@ == k {
                let i = choose|i: int| 0 <= i < s.len() && s[i].0@ == k;
                if i < t.len() {
                    assert(t[i].0@ == k);
                }
            }
        }
        assert forall|i: int| 0 <= i < s.len() implies #[trigger] names_map(s)[s[i].0@] == s[i].1 by {
            if i < t.len() {
                assert(t[i] == s[i]);
            }
        }
        assert(!names_map(t).contains_key(s.last().0@)) by {
            if names_map(t).contains_key(s.last().0@) {
                let i = choose|i: int| 0 <= i < t.len() && t[i].0@ == s.last().0@;
                assert(s[i].0@ == s[s.len() - 1].0@);
            }
        }
    }
}

impl<V> NameTable<V> {
    /// Names are distinct.
    #[verifier::type_invariant]
    spec fn wf(&self) -> bool {
        distinct_names(self.entries@)
    }

    /// An empty table.
    pub fn new() -> (t: Self)
        ensures
            t@ == Map::<Seq<char>, V>::empty(),
    {
        NameTable { entries: Vec::new() }
    }

    /// Number of names.
    pub fn len(&self) -> (n: usize)
        ensures
            n == self@.dom().len(),
    {
        proof {
            use_type_invariant(self);
            lemma_names_map(self.entries@);
        }
        self.entries.len()
    }

    /// Position of `name`, if present.
    fn find(&self, name: &String) -> (r: Option<usize>)
        ensures
            r matches Some(i) ==> i < self.entries@.len() && self.entries@[i as int].0@ == name@,
            r is None ==> forall|i: int| 0 <= i < self.entries@.len() ==> self.entries@[i].0@ != name@,
    {
        let mut i: usize = 0;
        while i < self.entries.len()
            invariant
                i <= self.entries@.len(),
                forall|j: int| 0 <= j < i ==> self.entries@[j].0@ != name@,
            decreases self.entries@.len() - i,
        {
            if self.entries[i].0 == *name {
                return Some(i);
            }
            i += 1;
        }
        None
    }

    /// Whether `name` is present.
    pub fn contains_key(&self, name: &str) -> (b: bool)
        ensures
            b == self@.contains_key(name@),
    {
        proof {
            use_type_invariant(self);
            lemma_names_map(self.entries@);
        }
        let key = String::from_str(name);
        match self.find(&key) {
            Some(_) => true,
            None => false,
        }
    }

    /// Remove every name.
    pub fn clear(&mut self)
        ensures
            final(self)@ == Map::<Seq<char>, V>::empty(),
    {
        self.entries = Vec::new();
    }

    /// Insert or overwrite the value under `name`.
    pub fn insert(&mut self, name: String, value: V)
        ensures
            final(self)@ == old(self)@.insert(name@, value),
    {
        proof {
            use_type_invariant(&*self);
            lemma_names_map(self.entries@);
        }
        let ghost old_entries = self.entries@;
        let ghost oldm = names_map(old_entries);
        let ghost kv = name@;
        let found = self.find(&name);
        let mut entries: Vec<(String, V)> = Vec::new();
        std::mem::swap(&mut entries, &mut self.entries);
        match found {
            Some(i) => {
                entries.set(i, (name, value));
                proof {
                    let s = entries@;
                    assert(distinct_names(s));
                    lemma_names_map(s);
                    assert forall|k: Seq<char>| #[trigger] names_map(s).contains_key(k) == oldm.insert(kv, value).contains_key(k) by {
                        if exists|j: int| 0 <= j < s.len() && s[j].0@ == k {
                            let j = choose|j: int| 0 <= j < s.len() && s[j].0@ == k;
                            if j != i {
                                assert(old_entries[j].0@ == k);
                            }
                        }
                        if oldm.contains_key(k) {
                            let j = choose|j: int| 0 <= j < old_entries.len() && old_entries[j].0@ == k;
                            if j != i {
                                assert(s[j].0@ == k);
                            } else {
                                assert(s[i as int].0@ == k);
                            }
                        }
                    }
                    assert forall|k: Seq<char>| #[trigger] names_map(s).contains_key(k) implies names_map(s)[k] == oldm.insert(kv, value)[k] by {
                        let j = choose|j: int| 0 <= j < s.len() && s[j].0@ == k;
                        if j != i {
                            assert(old_entries[j] == s[j]);
                        }
                    }
                    assert(names_map(s) =~= oldm.insert(kv, value));
                }
            },
            None => {
                entries.push((name, value));
                proof {
                    let s = entries@;
                    assert(s.drop_last() =~= old_entries);
                    assert(distinct_names(s));
                }
            },
        }
        self.entries = entries;
    }
}

impl<V> NameTable<V> {
    /// The names, in insertion order, each once.
    pub fn names(&self) -> (ns: Vec<String>)
        ensures
            ns@.len() == self@.dom().len(),
            forall|i: int| 0 <= i < ns@.len() ==> self@.contains_key(#[trigger] ns@[i]@),
            forall|k: Seq<char>| #[trigger] self@.contains_key(k) ==> exists|i: int| 0 <= i < ns@.len() && ns@[i]@ == k,
    {
        proof {
            use_type_invariant(self);
            lemma_names_map(self.entries@);
        }
        let mut ns: Vec<String> = Vec::new();
        let mut i: usize = 0;
        while i < self.entries.len()
            invariant
                i <= self.entries@.len(),
                ns@.len() == i,
                forall|j: int| 0 <= j < i ==> (#[trigger] ns@[j])@ == self.entries@[j].0@,
            decreases self.entries@.len() - i,
        {
            ns.push(self.entries[i].0.clone());
            i += 1;
        }
        proof {
            assert forall|k: Seq<char>| #[trigger] self@.contains_key(k) implies exists|j: int| 0 <= j < ns@.len() && ns@[j]@ == k by {
                let j = choose|j: int| 0 <= j < self.entries@.len() && self.entries@[j].0@ == k;
                assert(ns@[j]@ == k);
            }
            assert forall|j: int| 0 <= j < ns@.len() implies self@.contains_key(#[trigger] ns@[j]@) by {
                assert(ns@[j]@ == self.entries@[j].0@);
            }
        }
        ns
    }
}

impl<V: Copy> NameTable<V> {
    /// The value stored under `name`.
    pub fn get(&self, name: &str) -> (r: Option<V>)
        ensures
            r matches Some(v) ==> self@.contains_key(name@) && v == self@[name@],
            r is None ==> !self@.contains_key(name@),
    {
        proof {
            use_type_invariant(self);
            lemma_names_map(self.entries@);
        }
        let key = String::from_str(name);
        match self.find(&key) {
            Some(i) => Some(self.entries[i].1),
            None => None,
        }
    }

    /// A copy with the same contents.
    pub fn duplicate(&self) -> (t: Self)
        ensures
            t@ == self@,
    {
        proof { use_type_invariant(self); }
        let mut entries: Vec<(String, V)> = Vec::new();
        let mut i: usize = 0;
        while i < self.entries.len()
            invariant
                i <= self.entries@.len(),
                entries@.len() == i,
                forall|j: int| 0 <= j < i ==> #[trigger] entries@[j] == self.entries@[j],
            decreases self.entries@.len() - i,
        {
            let name = self.entries[i].0.clone();
            entries.push((name, self.entries[i].1));
            i += 1;
        }
        assert(entries@ =~= self.entries@);
        NameTable { entries }
    }
}

} // verus!
