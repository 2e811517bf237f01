//! Small collections keyed by text, kept in insertion order.
use vstd::prelude::*;

verus! {

/// The texts of a sequence of strings, in order.
pub open spec fn texts(keys: Seq<String>) -> Seq<Seq<char>> {
    keys.map_values(|k: String| k@)
}

/// In a sequence without repetition an element is found at its own position.
pub proof fn lemma_position(keys: Seq<Seq<char>>, i: int)
    requires
        keys.no_duplicates(),
        0 <= i < keys.len(),
    ensures
        keys.contains(keys[i]),
        keys.index_of(keys[i]) == i,
{
    let j = keys.index_of(keys[i]);
    assert(0 <= j < keys.len() && keys[j] == keys[i]);
}

/// A map from texts to values that remembers the order in which its keys came.
pub struct KeyedVec<V> {
    keys: Vec<String>,
    values: Vec<V>,
}

impl<V: Copy> KeyedVec<V> {
    /// The keys, oldest first.
    pub closed spec fn keys(&self) -> Seq<Seq<char>> {
        texts(self.keys@)
    }

    /// The values, each at the position of its key.
    pub closed spec fn values(&self) -> Seq<V> {
        self.values@
    }

    /// Every key has one value and no key occurs twice.
    pub open spec fn wf(&self) -> bool {
        &&& self.keys().len() == self.values().len()
        &&& self.keys().no_duplicates()
    }

    /// The contents as a map.
    pub open spec fn view(&self) -> Map<Seq<char>, V> {
        Map::new(
            |k: Seq<char>| self.keys().contains(k),
            |k: Seq<char>| self.values()[self.keys().index_of(k)],
        )
    }

    pub fn new() -> (r: Self)
        ensures
            r.wf(),
            r.keys() == Seq::<Seq<char>>::empty(),
            r.values() == Seq::<V>::empty(),
    {
        KeyedVec { keys: Vec::new(), values: Vec::new() }
    }

    pub fn len(&self) -> (n: usize)
        requires
            self.wf(),
        ensures
            n == self.keys().len(),
            n == self.values().len(),
    {
        self.values.len()
    }

    /// The position of `key`, if it is held.
    pub fn find(&self, key: &String) -> (r: Option<usize>)
        requires
            self.wf(),
        ensures
            match r {
                Some(i) => i < self.keys().len() && self.keys()[i as int] == key@,
                None => !self.keys().contains(key@),
            },
    {
        let mut i: usize = 0;
        while i < self.keys.len()
            invariant
                i <= self.keys@.len(),
                forall|j: int| 0 <= j < i ==> texts(self.keys@)[j] != key@,
            decreases self.keys@.len() - i,
        {
            if self.keys[i] == *key {
                return Some(i);
            }
            i += 1;
        }
        None
    }

    /// The value at position `i`.
    pub fn value_at(&self, i: usize) -> (v: V)
        requires
            self.wf(),
            i < self.values().len(),
        ensures
            v == self.values()[i as int],
    {
        self.values[i]
    }

    /// Appends a key that is not held yet.
    pub fn push(&mut self, key: String, value: V)
        requires
            old(self).wf(),
            !old(self).keys().contains(key@),
        ensures
            final(self).wf(),
            final(self).keys() == old(self).keys().push(key@),
            final(self).values() == old(self).values().push(value),
    {
        self.keys.push(key);
        self.values.push(value);
        assert(texts(self.keys@) =~= texts(old(self).keys@).push(key@));
    }

    /// Replaces the value at position `i`.
    pub fn set_value(&mut self, i: usize, value: V)
        requires
            old(self).wf(),
            i < old(self).values().len(),
        ensures
            final(self).wf(),
            final(self).keys() == old(self).keys(),
            final(self).values() == old(self).values().update(i as int, value),
    {
        self.values.set(i, value);
    }

    /// The value of `key`, if it is held.
    pub fn get(&self, key: &String) -> (r: Option<V>)
        requires
            self.wf(),
        ensures
            r == if self@.contains_key(key@) {
                Some(self@[key@])
            } else {
                None
            },
    {
        match self.find(key) {
            Some(i) => {
                proof {
                    lemma_position(self.keys(), i as int);
                }
                Some(self.values[i])
            },
            None => None,
        }
    }

    /// Gives `key` the value `value`: a key that is held keeps its place, a new one comes last.
    pub fn insert(&mut self, key: String, value: V)
        requires
            old(self).wf(),
        ensures
            final(self).wf(),
            final(self)@ == old(self)@.insert(key@, value),
    {
        match self.find(&key) {
            Some(i) => {
                self.values.set(i, value);
                proof {
                    lemma_position(self.keys(), i as int);
                    assert forall|k: Seq<char>| self.keys().contains(k) implies #[trigger] self@[k]
                        == old(self)@.insert(key@, value)[k] by {
                        let j = self.keys().index_of(k);
                        lemma_position(self.keys(), j);
                    }
                    assert(self@ =~= old(self)@.insert(key@, value));
                }
            },
            None => {
                self.keys.push(key);
                self.values.push(value);
                proof {
                    assert(texts(self.keys@) =~= texts(old(self).keys@).push(key@));
                    let last = old(self).keys().len() as int;
                    lemma_position(self.keys(), last);
                    assert forall|k: Seq<char>| #[trigger]
                        self.keys().contains(k) == old(self)@.insert(key@, value).contains_key(
                            k,
                        ) by {
                        if self.keys().contains(k) {
                            let j = self.keys().index_of(k);
                            if j < last {
                                assert(old(self).keys()[j] == k);
                            }
                        }
                        if old(self).keys().contains(k) {
                            let j = old(self).keys().index_of(k);
                            assert(self.keys()[j] == k);
                        }
                    }
                    assert forall|k: Seq<char>| self.keys().contains(k) implies #[trigger] self@[k]
                        == old(self)@.insert(key@, value)[k] by {
                        let j = self.keys().index_of(k);
                        lemma_position(self.keys(), j);
                        if j < last {
                            assert(old(self).keys()[j] == k);
                            lemma_position(old(self).keys(), j);
                        }
                    }
                    assert(self@ =~= old(self)@.insert(key@, value));
                }
            },
        }
    }

    /// Takes `key` out with its value; nothing happens where it is not held.
    pub fn remove(&mut self, key: &String)
        requires
            old(self).wf(),
        ensures
            final(self).wf(),
            final(self)@ == old(self)@.remove(key@),
    {
        match self.find(key) {
            Some(i) => {
                let _ = self.keys.remove(i);
                let _ = self.values.remove(i);
                proof {
                    assert(texts(self.keys@) =~= texts(old(self).keys@).remove(i as int));
                    let before = old(self).keys();
                    let after = self.keys();
                    assert forall|k: Seq<char>| #[trigger]
                        after.contains(k) == old(self)@.remove(key@).contains_key(k) by {
                        if after.contains(k) {
                            let j = after.index_of(k);
                            let j0 = if j < i { j } else { j + 1 };
                            assert(before[j0] == k);
                        }
                        if before.contains(k) && k != key@ {
                            let j = before.index_of(k);
                            let j1 = if j < i { j } else { j - 1 };
                            assert(after[j1] == k);
                        }
                    }
                    assert forall|k: Seq<char>| after.contains(k) implies #[trigger] self@[k]
                        == old(self)@.remove(key@)[k] by {
                        let j = after.index_of(k);
                        let j0 = if j < i { j } else { j + 1 };
                        assert(before[j0] == k);
                        lemma_position(after, j);
                        lemma_position(before, j0);
                    }
                    assert(self@ =~= old(self)@.remove(key@));
                }
            },
            None => {
                assert(self@ =~= old(self)@.remove(key@));
            },
        }
    }

    /// Takes out the key at position `i` with its value; the others keep their order.
    pub fn remove_at(&mut self, i: usize)
        requires
            old(self).wf(),
            i < old(self).values().len(),
        ensures
            final(self).wf(),
            final(self).keys() == old(self).keys().remove(i as int),
            final(self).values() == old(self).values().remove(i as int),
    {
        let _ = self.keys.remove(i);
        let _ = self.values.remove(i);
        assert(texts(self.keys@) =~= texts(old(self).keys@).remove(i as int));
    }
}

/// A finite set of texts.
pub struct KeySet {
    keys: Vec<String>,
}

impl KeySet {
    /// The members in the order in which they came.
    pub closed spec fn members(&self) -> Seq<Seq<char>> {
        texts(self.keys@)
    }

    /// No member occurs twice.
    pub open spec fn wf(&self) -> bool {
        self.members().no_duplicates()
    }

    /// The members as a set.
    pub open spec fn view(&self) -> Set<Seq<char>> {
        self.members().to_set()
    }

    pub fn new() -> (r: Self)
        ensures
            r.wf(),
            r@ == Set::<Seq<char>>::empty(),
    {
        let r = KeySet { keys: Vec::new() };
        assert(r.members().to_set() =~= Set::<Seq<char>>::empty());
        r
    }

    /// The number of members.
    pub fn len(&self) -> (n: usize)
        requires
            self.wf(),
        ensures
            n == self@.len(),
            self@.finite(),
    {
        proof {
            self.members().unique_seq_to_set();
        }
        self.keys.len()
    }

    /// Whether there is no member.
    pub fn is_empty(&self) -> (b: bool)
        ensures
            b == self@.is_empty(),
    {
        if self.keys.len() == 0 {
            assert(self@ =~= Set::<Seq<char>>::empty());
            true
        } else {
            assert(self.members()[0] == self.keys@[0]@);
            assert(self@.contains(self.members()[0]));
            false
        }
    }

    fn find(&self, key: &String) -> (r: Option<usize>)
        ensures
            match r {
                Some(i) => i < self.members().len() && self.members()[i as int] == key@,
                None => !self.members().contains(key@),
            },
    {
        let mut i: usize = 0;
        while i < self.keys.len()
            invariant
                i <= self.keys@.len(),
                forall|j: int| 0 <= j < i ==> texts(self.keys@)[j] != key@,
            decreases self.keys@.len() - i,
        {
            if self.keys[i] == *key {
                return Some(i);
            }
            i += 1;
        }
        None
    }

    pub fn contains(&self, key: &String) -> (b: bool)
        requires
            self.wf(),
        ensures
            b == self@.contains(key@),
    {
        self.find(key).is_some()
    }

    /// Adds `key`; a member stays a member.
    pub fn insert(&mut self, key: String)
        requires
            old(self).wf(),
        ensures
            final(self).wf(),
            final(self)@ == old(self)@.insert(key@),
    {
        if self.find(&key).is_none() {
            self.keys.push(key);
            assert(texts(self.keys@) =~= texts(old(self).keys@).push(key@));
            assert(self.members().to_set() =~= old(self).members().to_set().insert(key@)) by {
                assert forall|k: Seq<char>| self.members().to_set().contains(k)
                    <==> old(self).members().to_set().insert(key@).contains(k) by {
                    if self.members().contains(k) {
                        let j = choose|j: int| 0 <= j < self.members().len() && self.members()[j] == k;
                        if j < old(self).members().len() {
                            assert(old(self).members()[j] == k);
                        }
                    }
                    if old(self).members().contains(k) {
                        let j = choose|j: int| 0 <= j < old(self).members().len() && old(self).members()[j] == k;
                        assert(self.members()[j] == k);
                    }
                    if k == key@ {
                        assert(self.members()[self.members().len() - 1] == k);
                    }
                }
            }
        } else {
            assert(self.members().to_set() =~= self.members().to_set().insert(key@));
        }
    }

    /// Takes `key` out; nothing happens where it is no member.
    pub fn remove(&mut self, key: &String)
        requires
            old(self).wf(),
        ensures
            final(self).wf(),
            final(self)@ == old(self)@.remove(key@),
    {
        match self.find(key) {
            Some(i) => {
                let _ = self.keys.remove(i);
                assert(texts(self.keys@) =~= texts(old(self).keys@).remove(i as int));
                assert(self.members().to_set() =~= old(self).members().to_set().remove(key@)) by {
                    let before = old(self).members();
                    let after = self.members();
                    assert forall|k: Seq<char>| after.to_set().contains(k)
                        <==> before.to_set().remove(key@).contains(k) by {
                        if after.contains(k) {
                            let j = choose|j: int| 0 <= j < after.len() && after[j] == k;
                            if j < i {
                                assert(before[j] == k);
                            } else {
                                assert(before[j + 1] == k);
                            }
                        }
                        if before.contains(k) && k != key@ {
                            let j = choose|j: int| 0 <= j < before.len() && before[j] == k;
                            if j < i {
                                assert(after[j] == k);
                            } else {
                                assert(after[j - 1] == k);
                            }
                        }
                    }
                }
            },
            None => {
                assert(self.members().to_set() =~= self.members().to_set().remove(key@));
            },
        }
    }
}

} // verus!
