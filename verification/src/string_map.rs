//! A map from text keys to values, kept as a list of entries in the order in which
//! their keys arrived.
use vstd::prelude::*;

verus! {

/// No key occurs twice in a walk over a map.
pub open spec fn distinct_keys<V>(walk: Seq<(Seq<char>, V)>) -> bool {
    forall|i: int, j: int|
        0 <= i < walk.len() && 0 <= j < walk.len() && i != j ==> (#[trigger] walk[i]).0 != (
        #[trigger] walk[j]).0
}

/// Position `i` of the walk visits the key `key`.
pub open spec fn key_stands_at<V>(walk: Seq<(Seq<char>, V)>, key: Seq<char>, i: int) -> bool {
    0 <= i < walk.len() && walk[i].0 == key
}

/// The map whose entries a walk visits.
pub open spec fn map_of<V>(walk: Seq<(Seq<char>, V)>) -> Map<Seq<char>, V> {
    Map::new(
        |key: Seq<char>| exists|i: int| key_stands_at(walk, key, i),
        |key: Seq<char>| walk[choose|i: int| key_stands_at(walk, key, i)].1,
    )
}

/// In a walk without repeated keys, the map holds at each visited key the value visited with it.
pub proof fn lemma_map_of_entry<V>(walk: Seq<(Seq<char>, V)>, i: int)
    requires
        distinct_keys(walk),
        0 <= i < walk.len(),
    ensures
        map_of(walk).contains_key(walk[i].0),
        map_of(walk)[walk[i].0] == walk[i].1,
{
    let key = walk[i].0;
    assert(key_stands_at(walk, key, i));
    let j = choose|j: int| key_stands_at(walk, key, j);
    assert(key_stands_at(walk, key, j));
    assert(i == j);
}

/// Where the map holds a key, the walk visits it, with the value that the map holds.
pub proof fn lemma_map_of_position<V>(walk: Seq<(Seq<char>, V)>, key: Seq<char>) -> (i: int)
    requires
        distinct_keys(walk),
        map_of(walk).contains_key(key),
    ensures
        key_stands_at(walk, key, i),
        walk[i].1 == map_of(walk)[key],
{
    let i = choose|i: int| key_stands_at(walk, key, i);
    lemma_map_of_entry(walk, i);
    i
}

/// Replacing the value at one position is an insertion at that position's key.
proof fn lemma_map_of_update<V>(walk: Seq<(Seq<char>, V)>, i: int, value: V)
    requires
        distinct_keys(walk),
        0 <= i < walk.len(),
    ensures
        distinct_keys(walk.update(i, (walk[i].0, value))),
        map_of(walk.update(i, (walk[i].0, value))) == map_of(walk).insert(walk[i].0, value),
{
    let after = walk.update(i, (walk[i].0, value));
    assert(distinct_keys(after));
    let left = map_of(after);
    let right = map_of(walk).insert(walk[i].0, value);
    assert forall|key: Seq<char>| left.contains_key(key) == right.contains_key(key) by {
        if left.contains_key(key) {
            let j = lemma_map_of_position(after, key);
            lemma_map_of_entry(walk, j);
        }
        if right.contains_key(key) {
            if key == walk[i].0 {
                lemma_map_of_entry(after, i);
            } else {
                let j = lemma_map_of_position(walk, key);
                lemma_map_of_entry(after, j);
            }
        }
    }
    assert forall|key: Seq<char>| left.contains_key(key) implies left[key] == right[key] by {
        let j = lemma_map_of_position(after, key);
        lemma_map_of_entry(walk, j);
    }
    assert(left =~= right);
}

/// Visiting one more entry, under a fresh key, is an insertion.
pub proof fn lemma_map_of_push<V>(walk: Seq<(Seq<char>, V)>, key: Seq<char>, value: V)
    requires
        distinct_keys(walk),
        !map_of(walk).contains_key(key),
    ensures
        distinct_keys(walk.push((key, value))),
        map_of(walk.push((key, value))) == map_of(walk).insert(key, value),
{
    let after = walk.push((key, value));
    assert forall|i: int| 0 <= i < walk.len() implies (#[trigger] walk[i]).0 != key by {
        lemma_map_of_entry(walk, i);
    }
    assert(distinct_keys(after));
    let left = map_of(after);
    let right = map_of(walk).insert(key, value);
    lemma_map_of_entry(after, walk.len() as int);
    assert forall|k: Seq<char>| left.contains_key(k) == right.contains_key(k) by {
        if left.contains_key(k) && k != key {
            let j = lemma_map_of_position(after, k);
            lemma_map_of_entry(walk, j);
        }
        if right.contains_key(k) && k != key {
            let j = lemma_map_of_position(walk, k);
            lemma_map_of_entry(after, j);
        }
    }
    assert forall|k: Seq<char>| left.contains_key(k) implies left[k] == right[k] by {
        if k != key {
            let j = lemma_map_of_position(after, k);
            lemma_map_of_entry(walk, j);
        }
    }
    assert(left =~= right);
}

/// Leaving one entry out of the walk is a removal of its key.
pub proof fn lemma_map_of_remove<V>(walk: Seq<(Seq<char>, V)>, i: int)
    requires
        distinct_keys(walk),
        0 <= i < walk.len(),
    ensures
        distinct_keys(walk.remove(i)),
        map_of(walk.remove(i)) == map_of(walk).remove(walk[i].0),
{
    let after = walk.remove(i);
    assert forall|a: int, b: int| 0 <= a < after.len() && 0 <= b < after.len() && a != b implies (
    #[trigger] after[a]).0 != (#[trigger] after[b]).0 by {
        let a0 = if a < i { a } else { a + 1 };
        let b0 = if b < i { b } else { b + 1 };
        assert(after[a] == walk[a0] && after[b] == walk[b0]);
    }
    let left = map_of(after);
    let right = map_of(walk).remove(walk[i].0);
    assert forall|k: Seq<char>| left.contains_key(k) == right.contains_key(k) by {
        if left.contains_key(k) {
            let j = lemma_map_of_position(after, k);
            let j0 = if j < i { j } else { j + 1 };
            assert(after[j] == walk[j0]);
            lemma_map_of_entry(walk, j0);
        }
        if right.contains_key(k) {
            let j = lemma_map_of_position(walk, k);
            let j1 = if j < i { j } else { j - 1 };
            assert(after[j1] == walk[j]);
            lemma_map_of_entry(after, j1);
        }
    }
    assert forall|k: Seq<char>| left.contains_key(k) implies left[k] == right[k] by {
        let j = lemma_map_of_position(after, k);
        let j0 = if j < i { j } else { j + 1 };
        assert(after[j] == walk[j0]);
        lemma_map_of_entry(walk, j0);
    }
    assert(left =~= right);
}

/// A walk without repeated keys visits as many entries as its map holds keys.
pub proof fn lemma_map_of_len<V>(walk: Seq<(Seq<char>, V)>)
    requires
        distinct_keys(walk),
    ensures
        map_of(walk).dom().finite(),
        map_of(walk).len() == walk.len(),
    decreases walk.len(),
{
    if walk.len() == 0 {
        assert forall|key: Seq<char>| !map_of(walk).contains_key(key) by {
            if map_of(walk).contains_key(key) {
                let i = lemma_map_of_position(walk, key);
            }
        }
        assert(map_of(walk).dom() =~= Set::<Seq<char>>::empty());
    } else {
        let last = walk.len() - 1;
        lemma_map_of_entry(walk, last);
        lemma_map_of_remove(walk, last);
        lemma_map_of_len(walk.remove(last));
        let key = walk[last].0;
        assert(map_of(walk).dom() =~= map_of(walk).remove(key).dom().insert(key));
    }
}

/// A map keyed by text. Its view is a mathematical map from character sequences to values.
#[derive(Debug)]
pub struct StringMap<V> {
    keys: Vec<String>,
    values: Vec<V>,
}

impl<V> View for StringMap<V> {
    type V = Map<Seq<char>, V>;

    open spec fn view(&self) -> Map<Seq<char>, V> {
        map_of(self.walk())
    }
}

impl<V> StringMap<V> {
    /// The entries in the order in which they are visited.
    pub closed spec fn walk(&self) -> Seq<(Seq<char>, V)> {
        Seq::new(self.keys@.len(), |i: int| (self.keys@[i]@, self.values@[i]))
    }

    /// As many values as keys, and no key twice.
    #[verifier::type_invariant]
    spec fn wf(&self) -> bool {
        &&& self.keys@.len() == self.values@.len()
        &&& forall|i: int, j: int|
            0 <= i < self.keys@.len() && 0 <= j < self.keys@.len() && i != j ==> (
            #[trigger] self.keys@[i])@ != (#[trigger] self.keys@[j])@
    }

    /// The map without entries.
    pub fn new() -> (map: Self)
        ensures
            map.walk() == Seq::<(Seq<char>, V)>::empty(),
            map@ == Map::<Seq<char>, V>::empty(),
    {
        let map = StringMap { keys: Vec::new(), values: Vec::new() };
        proof {
            assert(map.walk() =~= Seq::<(Seq<char>, V)>::empty());
            assert forall|key: Seq<char>| !map@.contains_key(key) by {
                if map@.contains_key(key) {
                    let i = lemma_map_of_position(map.walk(), key);
                }
            }
            assert(map@ =~= Map::<Seq<char>, V>::empty());
        }
        map
    }

    /// How many keys the map holds; the walk visits each of them once.
    pub fn len(&self) -> (count: usize)
        ensures
            count == self@.len(),
            count == self.walk().len(),
            distinct_keys(self.walk()),
            self@.dom().finite(),
    {
        proof {
            use_type_invariant(&*self);
            lemma_map_of_len(self.walk());
        }
        self.keys.len()
    }

    /// The key visited at a position of the walk.
    pub fn key_at(&self, index: usize) -> (key: &String)
        requires
            index < self.walk().len(),
        ensures
            key@ == self.walk()[index as int].0,
    {
        &self.keys[index]
    }

    /// The value visited at a position of the walk.
    pub fn value_at(&self, index: usize) -> (value: &V)
        requires
            index < self.walk().len(),
        ensures
            *value == self.walk()[index as int].1,
    {
        proof {
            use_type_invariant(&*self);
        }
        &self.values[index]
    }

    /// The position at which the walk visits a key.
    pub fn position(&self, key: &str) -> (place: Option<usize>)
        ensures
            match place {
                Some(i) => key_stands_at(self.walk(), key@, i as int) && self@.contains_key(key@)
                    && self@[key@] == self.walk()[i as int].1,
                None => !self@.contains_key(key@),
            },
    {
        proof {
            use_type_invariant(&*self);
        }
        let wanted: String = key.to_owned();
        let mut i: usize = 0;
        while i < self.keys.len()
            invariant
                i <= self.keys@.len(),
                wanted@ == key@,
                self.wf(),
                forall|j: int| 0 <= j < i ==> self.keys@[j]@ != key@,
            decreases self.keys@.len() - i,
        {
            if self.keys[i] == wanted {
                proof {
                    lemma_map_of_entry(self.walk(), i as int);
                }
                return Some(i);
            }
            i += 1;
        }
        proof {
            if self@.contains_key(key@) {
                let at = lemma_map_of_position(self.walk(), key@);
                assert(self.keys@[at]@ == key@);
            }
        }
        None
    }

    /// Whether the map holds a key.
    pub fn contains_key(&self, key: &str) -> (held: bool)
        ensures
            held == self@.contains_key(key@),
    {
        self.position(key).is_some()
    }

    /// The value at a key.
    pub fn get(&self, key: &str) -> (value: Option<&V>)
        ensures
            match value {
                Some(v) => self@.contains_key(key@) && *v == self@[key@],
                None => !self@.contains_key(key@),
            },
    {
        match self.position(key) {
            Some(i) => Some(self.value_at(i)),
            None => None,
        }
    }

    /// The value at a key, to be changed in place.
    pub fn get_mut(&mut self, key: &str) -> (value: Option<&mut V>)
        ensures
            match value {
                Some(slot) => old(self)@.contains_key(key@) && *slot == old(self)@[key@]
                    && final(self)@ == old(self)@.insert(key@, *final(slot)),
                None => !old(self)@.contains_key(key@) && *final(self) == *old(self),
            },
    {
        let place = self.position(key);
        match place {
            Some(i) => {
                proof {
                    use_type_invariant(&*self);
                }
                proof {
                    let before = *self;
                    assert forall|after: Self, value: V|
                        after.keys == before.keys && after.values@ == before.values@.update(
                            i as int,
                            value,
                        ) implies map_of(#[trigger] after.walk()) == #[trigger] before@.insert(
                        key@,
                        value,
                    ) by {
                        lemma_map_of_update(before.walk(), i as int, value);
                        assert(after.walk() =~= before.walk().update(
                            i as int,
                            (before.walk()[i as int].0, value),
                        ));
                    }
                }
                Some(&mut self.values[i])
            },
            None => None,
        }
    }

    /// Puts a value at a key, in place of the one that stood there.
    pub fn insert(&mut self, key: String, value: V)
        ensures
            final(self)@ == old(self)@.insert(key@, value),
    {
        let place = self.position(key.as_str());
        proof {
            use_type_invariant(&*self);
        }
        let ghost before = self.walk();
        match place {
            Some(i) => {
                self.values[i] = value;
                proof {
                    lemma_map_of_update(before, i as int, value);
                    assert(self.walk() =~= before.update(i as int, (before[i as int].0, value)));
                }
            },
            None => {
                let mut taken: StringMap<V> = StringMap::new();
                std::mem::swap(&mut taken, self);
                let StringMap { mut keys, mut values } = taken;
                proof {
                    assert forall|j: int| 0 <= j < keys@.len() implies (#[trigger] keys@[j])@
                        != key@ by {
                        lemma_map_of_entry(before, j);
                    }
                }
                keys.push(key);
                values.push(value);
                let grown = StringMap { keys, values };
                proof {
                    lemma_map_of_push(before, key@, value);
                    assert(grown.walk() =~= before.push((key@, value)));
                }
                *self = grown;
            },
        }
    }

    /// Takes out the entry visited at a position of the walk.
    pub fn remove_at(&mut self, index: usize) -> (entry: (String, V))
        requires
            index < old(self).walk().len(),
        ensures
            entry.0@ == old(self).walk()[index as int].0,
            entry.1 == old(self).walk()[index as int].1,
            final(self).walk() == old(self).walk().remove(index as int),
            final(self)@ == old(self)@.remove(entry.0@),
    {
        proof {
            use_type_invariant(&*self);
        }
        let ghost before = self.walk();
        let mut taken: StringMap<V> = StringMap::new();
        std::mem::swap(&mut taken, self);
        let StringMap { mut keys, mut values } = taken;
        let key = keys.remove(index);
        let value = values.remove(index);
        let shrunk = StringMap { keys, values };
        proof {
            lemma_map_of_remove(before, index as int);
            assert(shrunk.walk() =~= before.remove(index as int));
        }
        *self = shrunk;
        (key, value)
    }

    /// Takes out the value at a key.
    pub fn remove(&mut self, key: &str) -> (value: Option<V>)
        ensures
            match value {
                Some(v) => old(self)@.contains_key(key@) && v == old(self)@[key@],
                None => !old(self)@.contains_key(key@),
            },
            final(self)@ == old(self)@.remove(key@),
    {
        match self.position(key) {
            Some(i) => Some(self.remove_at(i).1),
            None => {
                proof {
                    assert(self@.remove(key@) =~= self@);
                }
                None
            },
        }
    }
}

} // verus!
