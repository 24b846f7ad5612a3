use vstd::prelude::*;

verus! {

/// A value that can be copied exactly.
pub trait DeepCopy: Sized {
    fn deep_copy(&self) -> (r: Self)
        ensures
            r == *self,
    ;
}

/// The map that a sequence of entries denotes: later entries win.
pub open spec fn map_of<T>(s: Seq<(String, T)>) -> Map<Seq<char>, T>
    decreases s.len(),
{
    if s.len() == 0 {
        Map::empty()
    } else {
        map_of(s.drop_last()).insert(s.last().0@, s.last().1)
    }
}

pub open spec fn keys_unique<T>(s: Seq<(String, T)>) -> bool {
    forall|i: int, j: int|
        0 <= i < s.len() && 0 <= j < s.len() && i != j ==> #[trigger] s[i].0@ != #[trigger] s[j].0@
}

proof fn lemma_map_of_contains<T>(s: Seq<(String, T)>, k: Seq<char>)
    ensures
        map_of(s).dom().finite(),
        map_of(s).contains_key(k) <==> exists|i: int| 0 <= i < s.len() && #[trigger] s[i].0@ == k,
    decreases s.len(),
{
    if s.len() > 0 {
        let p = s.drop_last();
        lemma_map_of_contains(p, k);
        if map_of(p).contains_key(k) {
            let i = choose|i: int| 0 <= i < p.len() && #[trigger] p[i].0@ == k;
            assert(s[i].0@ == k);
        }
        if exists|i: int| 0 <= i < s.len() && #[trigger] s[i].0@ == k {
            let i = choose|i: int| 0 <= i < s.len() && #[trigger] s[i].0@ == k;
            if i < s.len() - 1 {
                assert(p[i].0@ == k);
            }
        }
    }
}

proof fn lemma_map_of_value<T>(s: Seq<(String, T)>, i: int)
    requires
        keys_unique(s),
        0 <= i < s.len(),
    ensures
        map_of(s).contains_key(s[i].0@),
        map_of(s)[s[i].0@] == s[i].1,
    decreases s.len(),
{
    let p = s.drop_last();
    if i < s.len() - 1 {
        assert(s[i].0@ != s[s.len() - 1].0@);
        assert(keys_unique(p)) by {
            assert forall|a: int, b: int|
                0 <= a < p.len() && 0 <= b < p.len() && a != b implies #[trigger] p[a].0@
                != #[trigger] p[b].0@ by {
                assert(s[a].0@ != s[b].0@);
            }
        }
        lemma_map_of_value(p, i);
    }
}

proof fn lemma_unique_prefix<T>(s: Seq<(String, T)>)
    requires
        keys_unique(s),
        s.len() > 0,
    ensures
        keys_unique(s.drop_last()),
        !map_of(s.drop_last()).contains_key(s.last().0@),
{
    let p = s.drop_last();
    assert forall|a: int, b: int|
        0 <= a < p.len() && 0 <= b < p.len() && a != b implies #[trigger] p[a].0@
        != #[trigger] p[b].0@ by {
        assert(s[a].0@ != s[b].0@);
    }
    lemma_map_of_contains(p, s.last().0@);
    if map_of(p).contains_key(s.last().0@) {
        let i = choose|i: int| 0 <= i < p.len() && #[trigger] p[i].0@ == s.last().0@;
        assert(s[i].0@ != s[s.len() - 1].0@);
    }
}

proof fn lemma_map_of_len<T>(s: Seq<(String, T)>)
    requires
        keys_unique(s),
    ensures
        map_of(s).len() == s.len(),
    decreases s.len(),
{
    if s.len() > 0 {
        lemma_unique_prefix(s);
        lemma_map_of_len(s.drop_last());
        lemma_map_of_contains(s.drop_last(), s.last().0@);
    } else {
        assert(map_of(s).dom() =~= Set::empty());
    }
}

proof fn lemma_map_of_update<T>(s: Seq<(String, T)>, i: int, e: (String, T))
    requires
        keys_unique(s),
        0 <= i < s.len(),
        s[i].0@ == e.0@,
    ensures
        map_of(s.update(i, e)) == map_of(s).insert(e.0@, e.1),
        keys_unique(s.update(i, e)),
    decreases s.len(),
{
    let u = s.update(i, e);
    assert forall|a: int, b: int|
        0 <= a < u.len() && 0 <= b < u.len() && a != b implies #[trigger] u[a].0@
        != #[trigger] u[b].0@ by {
        assert(s[a].0@ != s[b].0@);
    }
    let p = s.drop_last();
    if i == s.len() - 1 {
        assert(u.drop_last() =~= p);
        assert(map_of(u) =~= map_of(s).insert(e.0@, e.1));
    } else {
        lemma_unique_prefix(s);
        assert(u.drop_last() =~= p.update(i, e));
        lemma_map_of_update(p, i, e);
        assert(s[i].0@ != s[s.len() - 1].0@);
        assert(map_of(u) =~= map_of(s).insert(e.0@, e.1));
    }
}

/// A map from strings to values, as a list of entries whose keys are distinct.
#[derive(Debug)]
pub struct StringMap<T> {
    entries: Vec<(String, T)>,
}

impl<T> View for StringMap<T> {
    type V = Map<Seq<char>, T>;

    closed spec fn view(&self) -> Map<Seq<char>, T> {
        map_of(self.entries@)
    }
}

impl<T> StringMap<T> {
    /// No key occurs twice.
    #[verifier::type_invariant]
    closed spec fn wf(&self) -> bool {
        keys_unique(self.entries@)
    }

    /// The keys, in the order of the entries.
    pub closed spec fn key_seq(&self) -> Seq<Seq<char>> {
        self.entries@.map_values(|e: (String, T)| e.0@)
    }

    proof fn lemma_keys(&self)
        requires
            keys_unique(self.entries@),
        ensures
            self@.dom().finite(),
            self.key_seq().len() == self@.len(),
            forall|k: Seq<char>| #[trigger]
                self@.contains_key(k) <==> self.key_seq().contains(k),
            forall|i: int|
                0 <= i < self.key_seq().len() ==> #[trigger] self@.contains_key(self.key_seq()[i]),
    {
        lemma_map_of_len(self.entries@);
        lemma_map_of_contains(self.entries@, Seq::empty());
        assert forall|k: Seq<char>| #[trigger]
            self@.contains_key(k) <==> self.key_seq().contains(k) by {
            lemma_map_of_contains(self.entries@, k);
            if self.key_seq().contains(k) {
                let i = choose|i: int| 0 <= i < self.key_seq().len() && self.key_seq()[i] == k;
                assert(self.entries@[i].0@ == k);
            }
            if self@.contains_key(k) {
                let i = choose|i: int|
                    0 <= i < self.entries@.len() && #[trigger] self.entries@[i].0@ == k;
                assert(self.key_seq()[i] == k);
            }
        }
        assert forall|i: int| 0 <= i < self.key_seq().len() implies #[trigger] self@.contains_key(
            self.key_seq()[i],
        ) by {
            lemma_map_of_value(self.entries@, i);
        }
    }

    /// The empty map.
    pub fn new() -> (r: Self)
        ensures
            r@ == Map::<Seq<char>, T>::empty(),
            r.key_seq().len() == 0,
    {
        StringMap { entries: Vec::new() }
    }

    /// The number of keys; the keys of the entries are exactly the keys of the
    /// map, each once.
    pub fn len(&self) -> (r: usize)
        ensures
            r == self@.len(),
            r == self.key_seq().len(),
            self@.dom().finite(),
            forall|k: Seq<char>| #[trigger]
                self@.contains_key(k) <==> self.key_seq().contains(k),
            forall|i: int|
                0 <= i < self.key_seq().len() ==> #[trigger] self@.contains_key(self.key_seq()[i]),
    {
        proof {
            use_type_invariant(self);
            self.lemma_keys();
        }
        self.entries.len()
    }

    /// The key of the `i`-th entry.
    pub fn key_at(&self, i: usize) -> (r: &String)
        requires
            i < self.key_seq().len(),
        ensures
            r@ == self.key_seq()[i as int],
    {
        &self.entries[i].0
    }

    /// The value of the `i`-th entry.
    pub fn value_at(&self, i: usize) -> (r: &T)
        requires
            i < self.key_seq().len(),
        ensures
            self@.contains_key(self.key_seq()[i as int]),
            *r == self@[self.key_seq()[i as int]],
    {
        proof {
            use_type_invariant(self);
            lemma_map_of_value(self.entries@, i as int);
        }
        &self.entries[i].1
    }

    fn find(&self, key: &String) -> (r: Option<usize>)
        ensures
            match r {
                Some(i) => i < self.entries@.len() && self.entries@[i as int].0@ == key@,
                None => !self@.contains_key(key@),
            },
    {
        let mut i: usize = 0;
        while i < self.entries.len()
            invariant
                i <= self.entries@.len(),
                forall|j: int| 0 <= j < i ==> #[trigger] self.entries@[j].0@ != key@,
            decreases self.entries@.len() - i,
        {
            if self.entries[i].0 == *key {
                return Some(i);
            }
            i = i + 1;
        }
        proof {
            use_type_invariant(self);
            lemma_map_of_contains(self.entries@, key@);
        }
        None
    }

    /// The value stored under `key`, if any.
    pub fn get(&self, key: &String) -> (r: Option<&T>)
        ensures
            r.is_some() <==> self@.contains_key(key@),
            r.is_some() ==> *r.unwrap() == self@[key@],
    {
        match self.find(key) {
            Some(i) => {
                proof {
                    use_type_invariant(self);
                    lemma_map_of_value(self.entries@, i as int);
                }
                Some(&self.entries[i].1)
            },
            None => None,
        }
    }

    /// Stores `value` under `key`, replacing what was there.
    pub fn insert(&mut self, key: String, value: T)
        ensures
            final(self)@ == old(self)@.insert(key@, value),
    {
        proof {
            use_type_invariant(&*self);
        }
        let found = self.find(&key);
        let mut taken = StringMap::new();
        std::mem::swap(self, &mut taken);
        let mut entries = taken.entries;
        let ghost s = entries@;
        match found {
            Some(i) => {
                proof {
                    lemma_map_of_update(s, i as int, (key, value));
                }
                entries.set(i, (key, value));
            },
            None => {
                let ghost t = s.push((key, value));
                proof {
                    lemma_map_of_contains(s, key@);
                    assert(t.drop_last() =~= s);
                    assert forall|a: int, b: int|
                        0 <= a < t.len() && 0 <= b < t.len() && a != b implies #[trigger] t[a].0@
                        != #[trigger] t[b].0@ by {
                        if a < s.len() && b < s.len() {
                            assert(s[a].0@ != s[b].0@);
                        } else if a < s.len() {
                            assert(s[a].0@ != key@);
                        } else {
                            assert(s[b].0@ != key@);
                        }
                    }
                }
                entries.push((key, value));
            },
        }
        *self = StringMap { entries };
    }
}

impl<T: DeepCopy> StringMap<T> {
    /// An exact copy of the map.
    pub fn deep_copy(&self) -> (r: Self)
        ensures
            r@ == self@,
    {
        proof {
            use_type_invariant(self);
        }
        let mut entries: Vec<(String, T)> = Vec::new();
        let mut i: usize = 0;
        while i < self.entries.len()
            invariant
                i <= self.entries@.len(),
                entries@ =~= self.entries@.subrange(0, i as int),
            decreases self.entries@.len() - i,
        {
            let k = self.entries[i].0.clone();
            let v = self.entries[i].1.deep_copy();
            entries.push((k, v));
            i = i + 1;
        }
        assert(entries@ =~= self.entries@);
        StringMap { entries }
    }
}

} // verus!
